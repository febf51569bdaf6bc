//! The event IR: the compiler emits events, not instructions.

use vstd::prelude::*;
use crate::kernel::event::{CollapseRule, RefusalReason, SpecReason, SpecRule};
use crate::syntax::ast::{SpecTerm, Term};
use crate::types::ty::{SpecType, Type};

verus! {

/// The mathematical model of an IR event.
pub enum SpecIr {
    Load(Seq<char>),
    PushUnit,
    PushUnitType,
    PushType(u32),
    Lambda { param: Seq<char>, ty: SpecType, body: SpecTerm },
    Apply,
    Pop,
    Refuse(SpecReason),
    Collapse(SpecRule),
    Bind,
    OpenScope(Seq<char>),
    CloseScope(Seq<char>),
    BeginSeq,
    EndSeq,
    Store(Seq<char>),
    Forget,
    Return,
}

/// One event of the IR.
#[derive(Debug, PartialEq, Eq)]
pub enum IrEvent {
    /// Push the value bound to a name (the name itself when unbound).
    Load(String),
    PushUnit,
    /// Push the unit type, the value a dependent function type evaluates
    /// to (so that naming it, as `pop` does, gives the name that
    /// interpretation gives).
    PushUnitType,
    PushType(u32),
    /// Introduce an abstraction: push a closure over the current
    /// environment; its body is compiled when the closure is applied.
    Lambda { param: String, ty: Type, body: Box<Term> },
    /// Apply the closure below the top of the stack to the top.
    Apply,
    Pop,
    /// A documented refusal reason.
    Refuse(RefusalReason),
    /// An explicit collapse rule.
    Collapse(CollapseRule),
    Bind,
    OpenScope(String),
    CloseScope(String),
    /// Begin a sequence.
    BeginSeq,
    /// End a sequence: of the values it pushed only the last stays (unit
    /// when it pushed none).
    EndSeq,
    /// Bind a name to the value on top of the stack.
    Store(String),
    /// Remove the latest binding.
    Forget,
    Return,
}

impl View for IrEvent {
    type V = SpecIr;

    open spec fn view(&self) -> SpecIr {
        match self {
            IrEvent::Load(s) => SpecIr::Load(s@),
            IrEvent::PushUnit => SpecIr::PushUnit,
            IrEvent::PushUnitType => SpecIr::PushUnitType,
            IrEvent::PushType(n) => SpecIr::PushType(*n),
            IrEvent::Lambda { param, ty, body } => SpecIr::Lambda { param: param@, ty: ty@, body: body@ },
            IrEvent::Apply => SpecIr::Apply,
            IrEvent::Pop => SpecIr::Pop,
            IrEvent::Refuse(r) => SpecIr::Refuse(r@),
            IrEvent::Collapse(c) => SpecIr::Collapse(c@),
            IrEvent::Bind => SpecIr::Bind,
            IrEvent::OpenScope(s) => SpecIr::OpenScope(s@),
            IrEvent::CloseScope(s) => SpecIr::CloseScope(s@),
            IrEvent::BeginSeq => SpecIr::BeginSeq,
            IrEvent::EndSeq => SpecIr::EndSeq,
            IrEvent::Store(s) => SpecIr::Store(s@),
            IrEvent::Forget => SpecIr::Forget,
            IrEvent::Return => SpecIr::Return,
        }
    }
}

/// The models of a sequence of IR events.
pub open spec fn ir_model(s: Seq<IrEvent>) -> Seq<SpecIr> {
    s.map_values(|e: IrEvent| e@)
}

/// A named block of IR events.
#[derive(Debug, Default)]
pub struct IrBlock {
    pub events: Vec<IrEvent>,
    pub name: String,
}

impl IrBlock {
    /// An empty block with the given name.
    pub fn new(name: &str) -> (r: IrBlock)
        ensures
            ir_model(r.events@) == Seq::<SpecIr>::empty(),
            r.name@ == name@,
    {
        let r = IrBlock { events: Vec::new(), name: String::from_str(name) };
        assert(ir_model(r.events@) =~= Seq::<SpecIr>::empty());
        r
    }

    /// Append one event.
    pub fn emit(&mut self, e: IrEvent)
        ensures
            ir_model(final(self).events@) == ir_model(old(self).events@).push(e@),
            final(self).name == old(self).name,
    {
        self.events.push(e);
        assert(ir_model(self.events@) =~= ir_model(old(self).events@).push(e@));
    }

    /// Number of events.
    pub fn len(&self) -> (r: usize)
        ensures
            r == self.events@.len(),
    {
        self.events.len()
    }

    /// Whether the block holds no event.
    pub fn is_empty(&self) -> (r: bool)
        ensures
            r == (self.events@.len() == 0),
    {
        self.events.len() == 0
    }
}

} // verus!
