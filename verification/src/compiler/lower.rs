//! Lowering of terms to the event IR.

use vstd::prelude::*;
use crate::ir::event_ir::{ir_model, IrBlock, IrEvent, SpecIr};
use crate::syntax::ast::{SpecTerm, Term};
use crate::types::ty::Type;

verus! {

/// The events that lowering `t` emits.
pub open spec fn lower_term(t: SpecTerm) -> Seq<SpecIr>
    decreases t, 1nat,
{
    match t {
        SpecTerm::Var(x) => seq![SpecIr::Load(x)],
        SpecTerm::Universe(n) => seq![SpecIr::PushType(n)],
        SpecTerm::Ann(i, _) => lower_term(*i),
        SpecTerm::Pi { .. } => seq![SpecIr::PushUnitType],
        SpecTerm::Lam { param, ty, body } => seq![SpecIr::Lambda { param, ty, body: *body }],
        SpecTerm::App(f, x) => lower_term(*f) + lower_term(*x) + seq![SpecIr::Apply],
        SpecTerm::Let { name, value, body } => lower_term(*value) + seq![SpecIr::Store(name)]
            + lower_term(*body) + seq![SpecIr::Forget],
        SpecTerm::Pop(i) => lower_term(*i).push(SpecIr::Pop),
        SpecTerm::Refuse(i, r) => lower_term(*i).push(SpecIr::Refuse(r)),
        SpecTerm::Collapse(i, r) => lower_term(*i).push(SpecIr::Collapse(r)),
        SpecTerm::Bind(a, b) => lower_term(*a) + lower_term(*b) + seq![SpecIr::Bind],
        SpecTerm::Sequence(ts) => seq![SpecIr::BeginSeq] + lower_all(ts) + seq![SpecIr::EndSeq],
    }
}

/// The events of the terms of `ts`, in order.
pub open spec fn lower_all(ts: Seq<SpecTerm>) -> Seq<SpecIr>
    decreases ts, 0nat,
{
    if ts.len() == 0 {
        Seq::empty()
    } else {
        lower_term(ts[0]) + lower_all(ts.drop_first())
    }
}

/// Lowers terms into an IR block.
pub struct Compiler {
    block: IrBlock,
}

impl Compiler {
    /// The events emitted so far.
    pub closed spec fn emitted(&self) -> Seq<SpecIr> {
        ir_model(self.block.events@)
    }

    /// The name of the block being built.
    pub closed spec fn block_name(&self) -> Seq<char> {
        self.block.name@
    }

    /// A compiler for a block with the given name.
    pub fn new(name: &str) -> (r: Compiler)
        ensures
            r.emitted() == Seq::<SpecIr>::empty(),
            r.block_name() == name@,
    {
        Compiler { block: IrBlock::new(name) }
    }

    /// Emit the events of `term`.
    pub fn lower(&mut self, term: &Term)
        ensures
            final(self).emitted() == old(self).emitted() + lower_term(term@),
            final(self).block_name() == old(self).block_name(),
        decreases term,
    {
        let ghost e0 = self.emitted();
        match term {
            Term::Var(x) => self.block.emit(IrEvent::Load(x.0.clone())),
            Term::Universe(n) => self.block.emit(IrEvent::PushType(*n)),
            Term::Ann(inner, _) => self.lower(inner),
            Term::Pi { .. } => self.block.emit(IrEvent::PushUnitType),
            Term::Lam { param, ty, body } => {
                let t: Type = (**ty).clone();
                let b: Term = (**body).clone();
                self.block.emit(IrEvent::Lambda { param: param.0.clone(), ty: t, body: Box::new(b) });
            },
            Term::App(fun, arg) => {
                self.lower(fun);
                self.lower(arg);
                self.block.emit(IrEvent::Apply);
            },
            Term::Let { name, value, body } => {
                self.lower(value);
                self.block.emit(IrEvent::Store(name.0.clone()));
                self.lower(body);
                self.block.emit(IrEvent::Forget);
            },
            Term::Pop(inner) => {
                self.lower(inner);
                self.block.emit(IrEvent::Pop);
            },
            Term::Refuse(inner, reason) => {
                self.lower(inner);
                self.block.emit(IrEvent::Refuse(reason.clone()));
            },
            Term::Collapse(inner, rule) => {
                self.lower(inner);
                self.block.emit(IrEvent::Collapse(rule.clone()));
            },
            Term::Bind(lhs, rhs) => {
                self.lower(lhs);
                self.lower(rhs);
                self.block.emit(IrEvent::Bind);
            },
            Term::Sequence(terms) => {
                let ghost ts = crate::syntax::ast::terms_model(terms@);
                proof {
                    crate::syntax::ast::lemma_terms_model(terms@);
                    assert(ts.skip(0) =~= ts);
                }
                self.block.emit(IrEvent::BeginSeq);
                let ghost e1 = self.emitted();
                let mut i: usize = 0;
                while i < terms.len()
                    invariant
                        i <= terms@.len(),
                        ts == crate::syntax::ast::terms_model(terms@),
                        ts.len() == terms@.len(),
                        forall|j: int| 0 <= j < ts.len() ==> #[trigger] ts[j] == terms@[j]@,
                        *term == Term::Sequence(*terms),
                        self.block_name() == old(self).block_name(),
                        self.emitted() + lower_all(ts.skip(i as int)) == e1 + lower_all(ts),
                    decreases terms@.len() - i,
                {
                    proof {
                        let v = term->Sequence_0;
                        assert(decreases_to!(*term => v));
                        assert(decreases_to!(v => v@));
                        assert(decreases_to!(v@ => v@[i as int]));
                        assert(ts.skip(i as int)[0] == ts[i as int]);
                        assert(ts.skip(i as int).drop_first() =~= ts.skip(i + 1));
                    }
                    let ghost before = self.emitted();
                    self.lower(&terms[i]);
                    proof {
                        let lt = lower_term(ts[i as int]);
                        let la = lower_all(ts.skip(i + 1));
                        assert(lower_all(ts.skip(i as int)) == lt + la);
                        assert((before + lt) + la =~= before + (lt + la));
                    }
                    i = i + 1;
                }
                self.block.emit(IrEvent::EndSeq);
                proof {
                    assert(ts.skip(i as int) =~= Seq::<SpecTerm>::empty());
                    assert(self.emitted() =~= e1 + lower_all(ts) + seq![SpecIr::EndSeq]);
                }
            },
        }
        assert(self.emitted() =~= e0 + lower_term(term@));
    }

    /// Close the block with `Return` and hand it out.
    pub fn finish(self) -> (r: IrBlock)
        ensures
            ir_model(r.events@) == self.emitted().push(SpecIr::Return),
            r.name@ == self.block_name(),
    {
        let mut c = self;
        c.block.emit(IrEvent::Return);
        c.block
    }
}

/// Compile a term into a block named `main`.
pub fn compile(term: &Term) -> (r: IrBlock)
    ensures
        ir_model(r.events@) == lower_term(term@).push(SpecIr::Return),
        r.name@ == "main"@,
{
    let mut c = Compiler::new("main");
    c.lower(term);
    assert(c.emitted() =~= lower_term(term@));
    c.finish()
}

} // verus!
