//! Writing references, tuples, sequences and dicts.
use crate::params::lemma_params_types;
use crate::params::params_types;
use crate::params::SpecParam;
use crate::signature;
use crate::signature::lemma_types_model;
use crate::signature::lemma_types_text_push;
use crate::signature::SpecType;
use crate::wire::errors::MarshalError;
use crate::wire::marshal::container::close_collection;
use crate::wire::marshal::container::lemma_marshal_entries_err;
use crate::wire::marshal::container::lemma_marshal_seq_err;
use crate::wire::marshal::container::open_collection;
use crate::wire::marshal::lemma_extends_trans;
use crate::wire::marshal::lemma_marshal_containers;
use crate::wire::marshal::lemma_marshal_entries_step;
use crate::wire::marshal::lemma_marshal_seq_step;
use crate::wire::marshal::marshal_entries;
use crate::wire::marshal::marshal_seq;
use crate::wire::marshal::marshal_spec;
use crate::wire::marshal::traits::DictKey;
use crate::wire::marshal::traits::Marshal;
use crate::wire::marshal::traits::Signature;
use crate::wire::marshal::traits::SignatureBuffer;
use crate::wire::marshal::MarshalContext;
use crate::wire::Dict;
use crate::wire::Variant;
use vstd::prelude::*;

verus! {

impl<T: Signature + ?Sized> Signature for &T {
    open spec fn sig_spec() -> SpecType {
        T::sig_spec()
    }

    fn signature() -> (t: signature::Type) {
        T::signature()
    }

    fn alignment() -> (a: usize) {
        T::alignment()
    }

    fn sig_str(s_buf: &mut SignatureBuffer) {
        T::sig_str(s_buf)
    }

    open spec fn param(&self) -> SpecParam {
        (**self).param()
    }

    proof fn lemma_param_type(&self) {
        (**self).lemma_param_type();
    }
}

impl<T: DictKey + ?Sized> DictKey for &T {
    open spec fn key_spec() -> signature::Base {
        T::key_spec()
    }

    proof fn lemma_key_type() {
        T::lemma_key_type();
    }

    fn same_key(&self, other: &Self) -> (b: bool) {
        (**self).same_key(&**other)
    }
}

impl<T: Marshal + ?Sized> Marshal for &T {
    fn marshal(&self, ctx: &mut MarshalContext) -> (r: Result<(), MarshalError>) {
        (**self).marshal(ctx)
    }
}

impl<A: Signature> Signature for (A,) {
    open spec fn sig_spec() -> SpecType {
        SpecType::Struct(seq![A::sig_spec()])
    }

    fn signature() -> (t: signature::Type) {
        let members = vec![A::signature()];
        proof {
            lemma_types_model(members@, members@.len());
            assert(signature::types_model(members@, members@.len()) =~= seq![A::sig_spec()]);
        }
        signature::Type::Container(signature::Container::Struct(signature::StructTypes(members)))
    }

    fn alignment() -> (a: usize) {
        8
    }

    fn sig_str(s_buf: &mut SignatureBuffer) {
        proof {
            reveal_strlit("(");
            reveal_strlit(")");
        }
        s_buf.push_static("(");
        A::sig_str(s_buf);
        s_buf.push_static(")");
        proof {
            lemma_types_text_push(Seq::<SpecType>::empty(), A::sig_spec());
            assert(Seq::<SpecType>::empty().push(A::sig_spec()) =~= seq![A::sig_spec()]);
            assert(s_buf@ =~= old(s_buf)@ + Self::sig_spec().text());
        }
    }

    open spec fn param(&self) -> SpecParam {
        SpecParam::Struct(seq![self.0.param()])
    }

    proof fn lemma_param_type(&self) {
        let fs = seq![self.0.param()];
        lemma_params_types(fs);
        self.0.lemma_param_type();
        assert(params_types(fs) =~= seq![A::sig_spec()]);
    }
}

impl<A: Marshal> Marshal for (A,) {
    fn marshal(&self, ctx: &mut MarshalContext) -> (r: Result<(), MarshalError>) {
        let ghost fs = seq![self.0.param()];
        let ghost bo = ctx.byteorder;
        proof {
            lemma_marshal_containers(bo, ctx@);
        }
        // a struct starts at a multiple of 8
        ctx.align_to(8);
        let ghost opened = ctx@;
        proof {
            lemma_marshal_seq_step(fs, 0, bo, opened);
            assert(marshal_seq(fs, 0, bo, opened)->Ok_0 =~= ctx@);
        }
        let ghost before = ctx@;
        let r = self.0.marshal(ctx);
        proof {
            lemma_extends_trans(opened, before, ctx@);
            lemma_extends_trans(old(ctx)@, opened, ctx@);
            if r is Err {
                lemma_marshal_seq_err(fs, 1, fs.len(), bo, opened);
            }
        }
        r
    }
}

impl<A: Signature, B: Signature> Signature for (A, B) {
    open spec fn sig_spec() -> SpecType {
        SpecType::Struct(seq![A::sig_spec(), B::sig_spec()])
    }

    fn signature() -> (t: signature::Type) {
        let members = vec![A::signature(), B::signature()];
        proof {
            lemma_types_model(members@, members@.len());
            assert(
                signature::types_model(members@, members@.len())
                =~= seq![A::sig_spec(), B::sig_spec()]
            );
        }
        signature::Type::Container(signature::Container::Struct(signature::StructTypes(members)))
    }

    fn alignment() -> (a: usize) {
        8
    }

    fn sig_str(s_buf: &mut SignatureBuffer) {
        proof {
            reveal_strlit("(");
            reveal_strlit(")");
        }
        s_buf.push_static("(");
        A::sig_str(s_buf);
        B::sig_str(s_buf);
        s_buf.push_static(")");
        proof {
            lemma_types_text_push(Seq::<SpecType>::empty(), A::sig_spec());
            lemma_types_text_push(Seq::<SpecType>::empty().push(A::sig_spec()), B::sig_spec());
            assert(
                Seq::<SpecType>::empty().push(A::sig_spec()).push(B::sig_spec())
                =~= seq![A::sig_spec(), B::sig_spec()]
            );
            assert(s_buf@ =~= old(s_buf)@ + Self::sig_spec().text());
        }
    }

    open spec fn param(&self) -> SpecParam {
        SpecParam::Struct(seq![self.0.param(), self.1.param()])
    }

    proof fn lemma_param_type(&self) {
        let fs = seq![self.0.param(), self.1.param()];
        lemma_params_types(fs);
        self.0.lemma_param_type();
        self.1.lemma_param_type();
        assert(params_types(fs) =~= seq![A::sig_spec(), B::sig_spec()]);
    }
}

impl<A: Marshal, B: Marshal> Marshal for (A, B) {
    fn marshal(&self, ctx: &mut MarshalContext) -> (r: Result<(), MarshalError>) {
        let ghost fs = seq![self.0.param(), self.1.param()];
        let ghost bo = ctx.byteorder;
        proof {
            lemma_marshal_containers(bo, ctx@);
        }
        // a struct starts at a multiple of 8
        ctx.align_to(8);
        let ghost opened = ctx@;
        proof {
            lemma_marshal_seq_step(fs, 0, bo, opened);
            assert(marshal_seq(fs, 0, bo, opened)->Ok_0 =~= ctx@);
        }
        let ghost before = ctx@;
        let r = self.0.marshal(ctx);
        proof {
            lemma_extends_trans(opened, before, ctx@);
            lemma_extends_trans(old(ctx)@, opened, ctx@);
            if r is Err {
                lemma_marshal_seq_err(fs, 1, fs.len(), bo, opened);
            }
        }
        if r.is_err() {
            return r;
        }
        proof {
            lemma_marshal_seq_step(fs, 1, bo, opened);
            assert(marshal_seq(fs, 1, bo, opened)->Ok_0 =~= ctx@);
        }
        let ghost before = ctx@;
        let r = self.1.marshal(ctx);
        proof {
            lemma_extends_trans(opened, before, ctx@);
            lemma_extends_trans(old(ctx)@, opened, ctx@);
            if r is Err {
                lemma_marshal_seq_err(fs, 2, fs.len(), bo, opened);
            }
        }
        r
    }
}

impl<A: Signature, B: Signature, C: Signature> Signature for (A, B, C) {
    open spec fn sig_spec() -> SpecType {
        SpecType::Struct(seq![A::sig_spec(), B::sig_spec(), C::sig_spec()])
    }

    fn signature() -> (t: signature::Type) {
        let members = vec![A::signature(), B::signature(), C::signature()];
        proof {
            lemma_types_model(members@, members@.len());
            assert(
                signature::types_model(members@, members@.len())
                =~= seq![A::sig_spec(), B::sig_spec(), C::sig_spec()]
            );
        }
        signature::Type::Container(signature::Container::Struct(signature::StructTypes(members)))
    }

    fn alignment() -> (a: usize) {
        8
    }

    fn sig_str(s_buf: &mut SignatureBuffer) {
        proof {
            reveal_strlit("(");
            reveal_strlit(")");
        }
        s_buf.push_static("(");
        A::sig_str(s_buf);
        B::sig_str(s_buf);
        C::sig_str(s_buf);
        s_buf.push_static(")");
        proof {
            lemma_types_text_push(Seq::<SpecType>::empty(), A::sig_spec());
            lemma_types_text_push(Seq::<SpecType>::empty().push(A::sig_spec()), B::sig_spec());
            lemma_types_text_push(
                Seq::<SpecType>::empty().push(A::sig_spec()).push(B::sig_spec()),
                C::sig_spec(),
            );
            assert(
                Seq::<SpecType>::empty()
                    .push(A::sig_spec())
                    .push(B::sig_spec())
                    .push(C::sig_spec())
                =~= seq![A::sig_spec(), B::sig_spec(), C::sig_spec()]
            );
            assert(s_buf@ =~= old(s_buf)@ + Self::sig_spec().text());
        }
    }

    open spec fn param(&self) -> SpecParam {
        SpecParam::Struct(seq![self.0.param(), self.1.param(), self.2.param()])
    }

    proof fn lemma_param_type(&self) {
        let fs = seq![self.0.param(), self.1.param(), self.2.param()];
        lemma_params_types(fs);
        self.0.lemma_param_type();
        self.1.lemma_param_type();
        self.2.lemma_param_type();
        assert(params_types(fs) =~= seq![A::sig_spec(), B::sig_spec(), C::sig_spec()]);
    }
}

impl<A: Marshal, B: Marshal, C: Marshal> Marshal for (A, B, C) {
    fn marshal(&self, ctx: &mut MarshalContext) -> (r: Result<(), MarshalError>) {
        let ghost fs = seq![self.0.param(), self.1.param(), self.2.param()];
        let ghost bo = ctx.byteorder;
        proof {
            lemma_marshal_containers(bo, ctx@);
        }
        // a struct starts at a multiple of 8
        ctx.align_to(8);
        let ghost opened = ctx@;
        proof {
            lemma_marshal_seq_step(fs, 0, bo, opened);
            assert(marshal_seq(fs, 0, bo, opened)->Ok_0 =~= ctx@);
        }
        let ghost before = ctx@;
        let r = self.0.marshal(ctx);
        proof {
            lemma_extends_trans(opened, before, ctx@);
            lemma_extends_trans(old(ctx)@, opened, ctx@);
            if r is Err {
                lemma_marshal_seq_err(fs, 1, fs.len(), bo, opened);
            }
        }
        if r.is_err() {
            return r;
        }
        proof {
            lemma_marshal_seq_step(fs, 1, bo, opened);
            assert(marshal_seq(fs, 1, bo, opened)->Ok_0 =~= ctx@);
        }
        let ghost before = ctx@;
        let r = self.1.marshal(ctx);
        proof {
            lemma_extends_trans(opened, before, ctx@);
            lemma_extends_trans(old(ctx)@, opened, ctx@);
            if r is Err {
                lemma_marshal_seq_err(fs, 2, fs.len(), bo, opened);
            }
        }
        if r.is_err() {
            return r;
        }
        proof {
            lemma_marshal_seq_step(fs, 2, bo, opened);
            assert(marshal_seq(fs, 2, bo, opened)->Ok_0 =~= ctx@);
        }
        let ghost before = ctx@;
        let r = self.2.marshal(ctx);
        proof {
            lemma_extends_trans(opened, before, ctx@);
            lemma_extends_trans(old(ctx)@, opened, ctx@);
            if r is Err {
                lemma_marshal_seq_err(fs, 3, fs.len(), bo, opened);
            }
        }
        r
    }
}

impl<A: Signature, B: Signature, C: Signature, D: Signature> Signature for (A, B, C, D) {
    open spec fn sig_spec() -> SpecType {
        SpecType::Struct(seq![A::sig_spec(), B::sig_spec(), C::sig_spec(), D::sig_spec()])
    }

    fn signature() -> (t: signature::Type) {
        let members = vec![A::signature(), B::signature(), C::signature(), D::signature()];
        proof {
            lemma_types_model(members@, members@.len());
            assert(
                signature::types_model(members@, members@.len())
                =~= seq![A::sig_spec(), B::sig_spec(), C::sig_spec(), D::sig_spec()]
            );
        }
        signature::Type::Container(signature::Container::Struct(signature::StructTypes(members)))
    }

    fn alignment() -> (a: usize) {
        8
    }

    fn sig_str(s_buf: &mut SignatureBuffer) {
        proof {
            reveal_strlit("(");
            reveal_strlit(")");
        }
        s_buf.push_static("(");
        A::sig_str(s_buf);
        B::sig_str(s_buf);
        C::sig_str(s_buf);
        D::sig_str(s_buf);
        s_buf.push_static(")");
        proof {
            lemma_types_text_push(Seq::<SpecType>::empty(), A::sig_spec());
            lemma_types_text_push(Seq::<SpecType>::empty().push(A::sig_spec()), B::sig_spec());
            lemma_types_text_push(
                Seq::<SpecType>::empty().push(A::sig_spec()).push(B::sig_spec()),
                C::sig_spec(),
            );
            lemma_types_text_push(
                Seq::<SpecType>::empty().push(A::sig_spec()).push(B::sig_spec()).push(C::sig_spec()),
                D::sig_spec(),
            );
            assert(
                Seq::<SpecType>::empty()
                    .push(A::sig_spec())
                    .push(B::sig_spec())
                    .push(C::sig_spec())
                    .push(D::sig_spec())
                =~= seq![A::sig_spec(), B::sig_spec(), C::sig_spec(), D::sig_spec()]
            );
            assert(s_buf@ =~= old(s_buf)@ + Self::sig_spec().text());
        }
    }

    open spec fn param(&self) -> SpecParam {
        SpecParam::Struct(seq![self.0.param(), self.1.param(), self.2.param(), self.3.param()])
    }

    proof fn lemma_param_type(&self) {
        let fs = seq![self.0.param(), self.1.param(), self.2.param(), self.3.param()];
        lemma_params_types(fs);
        self.0.lemma_param_type();
        self.1.lemma_param_type();
        self.2.lemma_param_type();
        self.3.lemma_param_type();
        assert(
            params_types(fs)
            =~= seq![A::sig_spec(), B::sig_spec(), C::sig_spec(), D::sig_spec()]
        );
    }
}

impl<A: Marshal, B: Marshal, C: Marshal, D: Marshal> Marshal for (A, B, C, D) {
    fn marshal(&self, ctx: &mut MarshalContext) -> (r: Result<(), MarshalError>) {
        let ghost fs = seq![self.0.param(), self.1.param(), self.2.param(), self.3.param()];
        let ghost bo = ctx.byteorder;
        proof {
            lemma_marshal_containers(bo, ctx@);
        }
        // a struct starts at a multiple of 8
        ctx.align_to(8);
        let ghost opened = ctx@;
        proof {
            lemma_marshal_seq_step(fs, 0, bo, opened);
            assert(marshal_seq(fs, 0, bo, opened)->Ok_0 =~= ctx@);
        }
        let ghost before = ctx@;
        let r = self.0.marshal(ctx);
        proof {
            lemma_extends_trans(opened, before, ctx@);
            lemma_extends_trans(old(ctx)@, opened, ctx@);
            if r is Err {
                lemma_marshal_seq_err(fs, 1, fs.len(), bo, opened);
            }
        }
        if r.is_err() {
            return r;
        }
        proof {
            lemma_marshal_seq_step(fs, 1, bo, opened);
            assert(marshal_seq(fs, 1, bo, opened)->Ok_0 =~= ctx@);
        }
        let ghost before = ctx@;
        let r = self.1.marshal(ctx);
        proof {
            lemma_extends_trans(opened, before, ctx@);
            lemma_extends_trans(old(ctx)@, opened, ctx@);
            if r is Err {
                lemma_marshal_seq_err(fs, 2, fs.len(), bo, opened);
            }
        }
        if r.is_err() {
            return r;
        }
        proof {
            lemma_marshal_seq_step(fs, 2, bo, opened);
            assert(marshal_seq(fs, 2, bo, opened)->Ok_0 =~= ctx@);
        }
        let ghost before = ctx@;
        let r = self.2.marshal(ctx);
        proof {
            lemma_extends_trans(opened, before, ctx@);
            lemma_extends_trans(old(ctx)@, opened, ctx@);
            if r is Err {
                lemma_marshal_seq_err(fs, 3, fs.len(), bo, opened);
            }
        }
        if r.is_err() {
            return r;
        }
        proof {
            lemma_marshal_seq_step(fs, 3, bo, opened);
            assert(marshal_seq(fs, 3, bo, opened)->Ok_0 =~= ctx@);
        }
        let ghost before = ctx@;
        let r = self.3.marshal(ctx);
        proof {
            lemma_extends_trans(opened, before, ctx@);
            lemma_extends_trans(old(ctx)@, opened, ctx@);
            if r is Err {
                lemma_marshal_seq_err(fs, 4, fs.len(), bo, opened);
            }
        }
        r
    }
}

impl<A: Signature, B: Signature, C: Signature, D: Signature, E: Signature> Signature for (A, B, C, D, E) {
    open spec fn sig_spec() -> SpecType {
        SpecType::Struct(seq![A::sig_spec(), B::sig_spec(), C::sig_spec(), D::sig_spec(), E::sig_spec()])
    }

    fn signature() -> (t: signature::Type) {
        let members = vec![A::signature(), B::signature(), C::signature(), D::signature(), E::signature()];
        proof {
            lemma_types_model(members@, members@.len());
            assert(
                signature::types_model(members@, members@.len())
                =~= seq![A::sig_spec(), B::sig_spec(), C::sig_spec(), D::sig_spec(), E::sig_spec()]
            );
        }
        signature::Type::Container(signature::Container::Struct(signature::StructTypes(members)))
    }

    fn alignment() -> (a: usize) {
        8
    }

    fn sig_str(s_buf: &mut SignatureBuffer) {
        proof {
            reveal_strlit("(");
            reveal_strlit(")");
        }
        s_buf.push_static("(");
        A::sig_str(s_buf);
        B::sig_str(s_buf);
        C::sig_str(s_buf);
        D::sig_str(s_buf);
        E::sig_str(s_buf);
        s_buf.push_static(")");
        proof {
            lemma_types_text_push(Seq::<SpecType>::empty(), A::sig_spec());
            lemma_types_text_push(Seq::<SpecType>::empty().push(A::sig_spec()), B::sig_spec());
            lemma_types_text_push(
                Seq::<SpecType>::empty().push(A::sig_spec()).push(B::sig_spec()),
                C::sig_spec(),
            );
            lemma_types_text_push(
                Seq::<SpecType>::empty().push(A::sig_spec()).push(B::sig_spec()).push(C::sig_spec()),
                D::sig_spec(),
            );
            lemma_types_text_push(
                Seq::<SpecType>::empty().push(A::sig_spec()).push(B::sig_spec()).push(C::sig_spec()).push(D::sig_spec()),
                E::sig_spec(),
            );
            assert(
                Seq::<SpecType>::empty()
                    .push(A::sig_spec())
                    .push(B::sig_spec())
                    .push(C::sig_spec())
                    .push(D::sig_spec())
                    .push(E::sig_spec())
                =~= seq![A::sig_spec(), B::sig_spec(), C::sig_spec(), D::sig_spec(), E::sig_spec()]
            );
            assert(s_buf@ =~= old(s_buf)@ + Self::sig_spec().text());
        }
    }

    open spec fn param(&self) -> SpecParam {
        SpecParam::Struct(
            seq![
                self.0.param(),
                self.1.param(),
                self.2.param(),
                self.3.param(),
                self.4.param(),
            ],
        )
    }

    proof fn lemma_param_type(&self) {
        let fs = seq![self.0.param(), self.1.param(), self.2.param(), self.3.param(), self.4.param()];
        lemma_params_types(fs);
        self.0.lemma_param_type();
        self.1.lemma_param_type();
        self.2.lemma_param_type();
        self.3.lemma_param_type();
        self.4.lemma_param_type();
        assert(
            params_types(fs)
            =~= seq![A::sig_spec(), B::sig_spec(), C::sig_spec(), D::sig_spec(), E::sig_spec()]
        );
    }
}

impl<A: Marshal, B: Marshal, C: Marshal, D: Marshal, E: Marshal> Marshal for (A, B, C, D, E) {
    fn marshal(&self, ctx: &mut MarshalContext) -> (r: Result<(), MarshalError>) {
        let ghost fs = seq![
            self.0.param(),
            self.1.param(),
            self.2.param(),
            self.3.param(),
            self.4.param(),
        ];
        let ghost bo = ctx.byteorder;
        proof {
            lemma_marshal_containers(bo, ctx@);
        }
        // a struct starts at a multiple of 8
        ctx.align_to(8);
        let ghost opened = ctx@;
        proof {
            lemma_marshal_seq_step(fs, 0, bo, opened);
            assert(marshal_seq(fs, 0, bo, opened)->Ok_0 =~= ctx@);
        }
        let ghost before = ctx@;
        let r = self.0.marshal(ctx);
        proof {
            lemma_extends_trans(opened, before, ctx@);
            lemma_extends_trans(old(ctx)@, opened, ctx@);
            if r is Err {
                lemma_marshal_seq_err(fs, 1, fs.len(), bo, opened);
            }
        }
        if r.is_err() {
            return r;
        }
        proof {
            lemma_marshal_seq_step(fs, 1, bo, opened);
            assert(marshal_seq(fs, 1, bo, opened)->Ok_0 =~= ctx@);
        }
        let ghost before = ctx@;
        let r = self.1.marshal(ctx);
        proof {
            lemma_extends_trans(opened, before, ctx@);
            lemma_extends_trans(old(ctx)@, opened, ctx@);
            if r is Err {
                lemma_marshal_seq_err(fs, 2, fs.len(), bo, opened);
            }
        }
        if r.is_err() {
            return r;
        }
        proof {
            lemma_marshal_seq_step(fs, 2, bo, opened);
            assert(marshal_seq(fs, 2, bo, opened)->Ok_0 =~= ctx@);
        }
        let ghost before = ctx@;
        let r = self.2.marshal(ctx);
        proof {
            lemma_extends_trans(opened, before, ctx@);
            lemma_extends_trans(old(ctx)@, opened, ctx@);
            if r is Err {
                lemma_marshal_seq_err(fs, 3, fs.len(), bo, opened);
            }
        }
        if r.is_err() {
            return r;
        }
        proof {
            lemma_marshal_seq_step(fs, 3, bo, opened);
            assert(marshal_seq(fs, 3, bo, opened)->Ok_0 =~= ctx@);
        }
        let ghost before = ctx@;
        let r = self.3.marshal(ctx);
        proof {
            lemma_extends_trans(opened, before, ctx@);
            lemma_extends_trans(old(ctx)@, opened, ctx@);
            if r is Err {
                lemma_marshal_seq_err(fs, 4, fs.len(), bo, opened);
            }
        }
        if r.is_err() {
            return r;
        }
        proof {
            lemma_marshal_seq_step(fs, 4, bo, opened);
            assert(marshal_seq(fs, 4, bo, opened)->Ok_0 =~= ctx@);
        }
        let ghost before = ctx@;
        let r = self.4.marshal(ctx);
        proof {
            lemma_extends_trans(opened, before, ctx@);
            lemma_extends_trans(old(ctx)@, opened, ctx@);
            if r is Err {
                lemma_marshal_seq_err(fs, 5, fs.len(), bo, opened);
            }
        }
        r
    }
}

/// The values of a run as the format sees them.
pub open spec fn elems_params<E: Signature>(s: Seq<E>) -> Seq<SpecParam> {
    Seq::new(s.len(), |i: int| s[i].param())
}

/// The entries of a dict as the format sees them.
pub open spec fn entries_params<K: Signature, V: Signature>(s: Seq<(K, V)>) -> Seq<
    (SpecParam, SpecParam),
> {
    Seq::new(s.len(), |i: int| (s[i].0.param(), s[i].1.param()))
}

impl<E: Signature> Signature for [E] {
    open spec fn sig_spec() -> SpecType {
        SpecType::Array(Box::new(E::sig_spec()))
    }

    fn signature() -> (t: signature::Type) {
        signature::Type::Container(signature::Container::Array(Box::new(E::signature())))
    }

    fn alignment() -> (a: usize) {
        4
    }

    fn sig_str(s_buf: &mut SignatureBuffer) {
        proof {
            reveal_strlit("a");
        }
        s_buf.push_static("a");
        E::sig_str(s_buf);
        assert(s_buf@ =~= old(s_buf)@ + Self::sig_spec().text());
    }

    open spec fn param(&self) -> SpecParam {
        SpecParam::Array(E::sig_spec(), elems_params(self@))
    }

    proof fn lemma_param_type(&self) {
    }
}

impl<E: Marshal> Marshal for [E] {
    #[verifier::loop_isolation(false)]
    fn marshal(&self, ctx: &mut MarshalContext) -> (r: Result<(), MarshalError>) {
        let ghost vs = elems_params(self@);
        let ghost bo = ctx.byteorder;
        proof {
            lemma_marshal_containers(bo, ctx@);
            assert forall|i: int| 0 <= i < vs.len() implies (#[trigger] vs[i]).ty()
                == E::sig_spec() by {
                self@[i].lemma_param_type();
            }
        }
        let len_pos = open_collection(E::alignment(), ctx);
        let content_pos = ctx.buf.len();
        let ghost opened = ctx@;
        let mut i: usize = 0;
        while i < self.len()
            invariant
                i <= self.len(),
                ctx.byteorder == bo,
                ctx@.extends(opened),
                marshal_seq(vs, i as nat, bo, opened) matches Ok(w) && w.buf == ctx@.buf && w.fds
                    == ctx@.fds,
            decreases self.len() - i,
        {
            proof {
                lemma_marshal_seq_step(vs, i as nat, bo, opened);
                assert(marshal_seq(vs, i as nat, bo, opened)->Ok_0 =~= ctx@);
            }
            let ghost before = ctx@;
            let r = self[i].marshal(ctx);
            proof {
                lemma_extends_trans(opened, before, ctx@);
                lemma_extends_trans(old(ctx)@, opened, ctx@);
            }
            if r.is_err() {
                proof {
                    lemma_marshal_seq_err(vs, (i + 1) as nat, vs.len(), bo, opened);
                }
                return r;
            }
            i += 1;
        }
        close_collection(len_pos, content_pos, ctx, Ghost(old(ctx)@))
    }
}

impl<E: Signature> Signature for Vec<E> {
    open spec fn sig_spec() -> SpecType {
        SpecType::Array(Box::new(E::sig_spec()))
    }

    fn signature() -> (t: signature::Type) {
        signature::Type::Container(signature::Container::Array(Box::new(E::signature())))
    }

    fn alignment() -> (a: usize) {
        4
    }

    fn sig_str(s_buf: &mut SignatureBuffer) {
        proof {
            reveal_strlit("a");
        }
        s_buf.push_static("a");
        E::sig_str(s_buf);
        assert(s_buf@ =~= old(s_buf)@ + Self::sig_spec().text());
    }

    open spec fn param(&self) -> SpecParam {
        SpecParam::Array(E::sig_spec(), elems_params(self@))
    }

    proof fn lemma_param_type(&self) {
    }
}

impl<E: Marshal> Marshal for Vec<E> {
    fn marshal(&self, ctx: &mut MarshalContext) -> (r: Result<(), MarshalError>) {
        self.as_slice().marshal(ctx)
    }
}

impl<K: DictKey, V: Signature> Signature for Dict<K, V> {
    open spec fn sig_spec() -> SpecType {
        SpecType::Dict(K::key_spec(), Box::new(V::sig_spec()))
    }

    fn signature() -> (t: signature::Type) {
        proof {
            K::lemma_key_type();
        }
        match K::signature() {
            signature::Type::Base(k) => signature::Type::Container(
                signature::Container::Dict(k, Box::new(V::signature())),
            ),
            signature::Type::Container(_) => vstd::pervasive::unreached(),
        }
    }

    fn alignment() -> (a: usize) {
        4
    }

    fn sig_str(s_buf: &mut SignatureBuffer) {
        proof {
            reveal_strlit("a{");
            reveal_strlit("}");
            K::lemma_key_type();
        }
        s_buf.push_static("a{");
        K::sig_str(s_buf);
        V::sig_str(s_buf);
        s_buf.push_static("}");
        assert(s_buf@ =~= old(s_buf)@ + Self::sig_spec().text());
    }

    open spec fn param(&self) -> SpecParam {
        SpecParam::Dict(K::key_spec(), V::sig_spec(), entries_params(self.entries@))
    }

    proof fn lemma_param_type(&self) {
    }
}

impl<K: DictKey, V: Marshal> Marshal for Dict<K, V> {
    #[verifier::loop_isolation(false)]
    fn marshal(&self, ctx: &mut MarshalContext) -> (r: Result<(), MarshalError>) {
        let ghost es = entries_params(self.entries@);
        let ghost bo = ctx.byteorder;
        proof {
            lemma_marshal_containers(bo, ctx@);
            K::lemma_key_type();
            assert forall|i: int| 0 <= i < es.len() implies (#[trigger] es[i]).0.ty()
                == SpecType::Base(K::key_spec()) && es[i].1.ty() == V::sig_spec() by {
                self.entries@[i].0.lemma_param_type();
                self.entries@[i].1.lemma_param_type();
            }
            assert(crate::params::keys_are_base(es));
        }
        let len_pos = open_collection(8, ctx);
        let content_pos = ctx.buf.len();
        let ghost opened = ctx@;
        let mut i: usize = 0;
        while i < self.entries.len()
            invariant
                i <= self.entries.len(),
                ctx.byteorder == bo,
                ctx@.extends(opened),
                marshal_entries(es, i as nat, bo, opened) matches Ok(w) && w.buf == ctx@.buf
                    && w.fds == ctx@.fds,
            decreases self.entries.len() - i,
        {
            proof {
                lemma_marshal_entries_step(es, i as nat, bo, opened);
                assert(marshal_entries(es, i as nat, bo, opened)->Ok_0 =~= ctx@);
            }
            let entry = &self.entries[i];
            let ghost entered = ctx@;
            // every entry starts at a multiple of 8
            ctx.align_to(8);
            let ghost padded = ctx@;
            let r = entry.0.marshal(ctx);
            proof {
                lemma_extends_trans(opened, entered, padded);
                lemma_extends_trans(opened, padded, ctx@);
                lemma_extends_trans(old(ctx)@, opened, ctx@);
            }
            if r.is_err() {
                proof {
                    lemma_marshal_entries_err(es, (i + 1) as nat, es.len(), bo, opened);
                }
                return r;
            }
            assert(marshal_spec(es[i as int].0, bo, padded)->Ok_0 =~= ctx@);
            let ghost keyed = ctx@;
            let r = entry.1.marshal(ctx);
            proof {
                lemma_extends_trans(opened, keyed, ctx@);
                lemma_extends_trans(old(ctx)@, opened, ctx@);
            }
            if r.is_err() {
                proof {
                    lemma_marshal_entries_err(es, (i + 1) as nat, es.len(), bo, opened);
                }
                return r;
            }
            i += 1;
        }
        close_collection(len_pos, content_pos, ctx, Ghost(old(ctx)@))
    }
}

impl<T: Marshal> Signature for Variant<T> {
    open spec fn sig_spec() -> SpecType {
        SpecType::Variant
    }

    fn signature() -> (t: signature::Type) {
        signature::Type::Container(signature::Container::Variant)
    }

    fn alignment() -> (a: usize) {
        1
    }

    fn sig_str(s_buf: &mut SignatureBuffer) {
        proof {
            reveal_strlit("v");
        }
        s_buf.push_static("v");
        assert(s_buf@ =~= old(s_buf)@ + Self::sig_spec().text());
    }

    open spec fn param(&self) -> SpecParam {
        SpecParam::Variant(T::sig_spec(), Box::new(self.0.param()))
    }

    proof fn lemma_param_type(&self) {
    }
}

impl<T: Marshal> Marshal for Variant<T> {
    fn marshal(&self, ctx: &mut MarshalContext) -> (r: Result<(), MarshalError>) {
        // the signature of the value goes into the payload, before the value
        self.0.marshal_as_variant(ctx)
    }
}

} // verus!
