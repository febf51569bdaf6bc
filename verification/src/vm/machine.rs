//! The event machine: runs compiled IR against a world.

use vstd::prelude::*;
use crate::kernel::{popped, recorded, SpecWorld, World};
use crate::kernel::event::{SpecEvent, Symbol};
use crate::kernel::option_space::OptionSpace;
use crate::ir::event_ir::{ir_model, IrBlock, IrEvent, SpecIr};
use crate::types::ty::{SpecType, Type};
use crate::syntax::ast::SpecTerm;
use crate::compiler::lower::{compile, lower_term};
use crate::eval::interpreter::{depth_exhausted, MAX_DEPTH};
use crate::eval::value::{env_lookup, value_name, value_to_symbol, Env, SpecValue, Value};

verus! {

/// The mathematical model of a machine error.
pub enum SpecVmError {
    UnboundVariable(Seq<char>),
    StackUnderflow,
    NotAFunction,
    UnavailableOption(Seq<char>),
    InadmissibleCollapse,
    Other(Seq<char>),
}

/// Errors of the machine.
#[derive(Debug)]
pub enum VmError {
    UnboundVariable(String),
    StackUnderflow,
    NotAFunction,
    UnavailableOption(String),
    InadmissibleCollapse,
    Other(String),
}

impl View for VmError {
    type V = SpecVmError;

    open spec fn view(&self) -> SpecVmError {
        match self {
            VmError::UnboundVariable(s) => SpecVmError::UnboundVariable(s@),
            VmError::StackUnderflow => SpecVmError::StackUnderflow,
            VmError::NotAFunction => SpecVmError::NotAFunction,
            VmError::UnavailableOption(s) => SpecVmError::UnavailableOption(s@),
            VmError::InadmissibleCollapse => SpecVmError::InadmissibleCollapse,
            VmError::Other(m) => SpecVmError::Other(m@),
        }
    }
}

/// The display text of a machine error.
pub open spec fn vm_error_text(e: SpecVmError) -> Seq<char> {
    match e {
        SpecVmError::UnboundVariable(s) => "vm: unbound variable: "@ + s,
        SpecVmError::StackUnderflow => "vm: stack underflow"@,
        SpecVmError::NotAFunction => "vm: not a function"@,
        SpecVmError::UnavailableOption(s) => "vm: unavailable option: "@ + s,
        SpecVmError::InadmissibleCollapse => "vm: inadmissible collapse"@,
        SpecVmError::Other(m) => "vm: "@ + m,
    }
}

impl VmError {
    /// The display text of the error.
    pub fn to_text(&self) -> (r: String)
        ensures
            r@ == vm_error_text(self@),
    {
        let mut out = String::new();
        match self {
            VmError::UnboundVariable(s) => {
                out.append("vm: unbound variable: ");
                out.append(s.as_str());
            },
            VmError::StackUnderflow => out.append("vm: stack underflow"),
            VmError::NotAFunction => out.append("vm: not a function"),
            VmError::UnavailableOption(s) => {
                out.append("vm: unavailable option: ");
                out.append(s.as_str());
            },
            VmError::InadmissibleCollapse => out.append("vm: inadmissible collapse"),
            VmError::Other(m) => {
                out.append("vm: ");
                out.append(m.as_str());
            },
        }
        assert(out@ =~= vm_error_text(self@));
        out
    }
}

/// The mathematical model of a machine: its stack holds values, each with
/// whether it is admissible; `marks` holds the stack heights at which the
/// open sequences began, innermost last.
pub struct SpecMachine {
    pub stack: Seq<(SpecValue, bool)>,
    pub env: Seq<(Seq<char>, SpecValue)>,
    pub world: SpecWorld,
    pub marks: Seq<nat>,
}

/// `m` with its world replaced.
pub open spec fn with_world(m: SpecMachine, w: SpecWorld) -> SpecMachine {
    SpecMachine { stack: m.stack, env: m.env, world: w, marks: m.marks }
}

/// `m` with `v` pushed on its stack, flagged `admissible`.
pub open spec fn pushed(m: SpecMachine, v: SpecValue, admissible: bool) -> SpecMachine {
    SpecMachine { stack: m.stack.push((v, admissible)), env: m.env, world: m.world, marks: m.marks }
}

/// `m` with the top of its stack removed.
pub open spec fn dropped(m: SpecMachine) -> SpecMachine {
    SpecMachine { stack: m.stack.drop_last(), env: m.env, world: m.world, marks: m.marks }
}

/// The text of the error raised when a scope is closed that is not open.
pub open spec fn unbalanced_scope_text(name: Seq<char>) -> Seq<char> {
    "unbalanced scope: "@ + name
}

/// The stack when a sequence that began at height `h` ends: what the
/// sequence pushed is replaced by its last value, or by unit when it pushed
/// nothing.
pub open spec fn sequence_result(stack: Seq<(SpecValue, bool)>, h: nat) -> Seq<(SpecValue, bool)> {
    if stack.len() > h {
        stack.take(h as int).push(stack.last())
    } else {
        stack.push((SpecValue::Unit, true))
    }
}

/// The events a closure body runs: the compiled form of the body.
pub open spec fn compiled(t: SpecTerm) -> Seq<SpecIr> {
    lower_term(t).push(SpecIr::Return)
}

/// One step of the machine, with at most `fuel` nested applications: the
/// machine afterwards and the error, if the step failed (a failing step
/// keeps what it consumed from the stack).
pub open spec fn machine_step(fuel: nat, m: SpecMachine, e: SpecIr) -> (SpecMachine, Option<SpecVmError>)
    decreases fuel, 0nat, 0nat,
{
    match e {
        SpecIr::Load(name) => (
            pushed(
                m,
                match env_lookup(m.env, name) {
                    Some(v) => v,
                    None => SpecValue::Symbol(name),
                },
                true,
            ),
            None,
        ),
        SpecIr::PushUnit => (pushed(m, SpecValue::Unit, true), None),
        SpecIr::PushUnitType => (pushed(m, SpecValue::TypeValue(SpecType::Unit), true), None),
        SpecIr::PushType(n) => (pushed(m, SpecValue::TypeValue(SpecType::Universe(n)), true), None),
        SpecIr::Store(name) => if m.stack.len() == 0 {
            (m, Some(SpecVmError::StackUnderflow))
        } else {
            (
                SpecMachine {
                    stack: m.stack.drop_last(),
                    env: m.env.push((name, m.stack.last().0)),
                    world: m.world,
                    marks: m.marks,
                },
                None,
            )
        },
        SpecIr::Forget => if m.env.len() == 0 {
            (m, None)
        } else {
            (SpecMachine { stack: m.stack, env: m.env.drop_last(), world: m.world, marks: m.marks }, None)
        },
        SpecIr::Lambda { param, ty, body } => (
            pushed(
                with_world(m, recorded(m.world, SpecEvent::LamIntro { param })),
                SpecValue::Closure { param, param_ty: ty, body, env: m.env },
                true,
            ),
            None,
        ),
        SpecIr::Apply => if m.stack.len() == 0 {
            (m, Some(SpecVmError::StackUnderflow))
        } else if m.stack.len() == 1 {
            (dropped(m), Some(SpecVmError::StackUnderflow))
        } else {
            let arg = m.stack.last().0;
            let fun = m.stack.drop_last().last().0;
            let rest = SpecMachine {
                stack: m.stack.drop_last().drop_last(),
                env: m.env,
                world: m.world,
                marks: m.marks,
            };
            match fun {
                SpecValue::Closure { param, body, env: cenv, .. } => if fuel == 0 {
                    (rest, Some(SpecVmError::Other(depth_exhausted())))
                } else {
                    let inner = SpecMachine {
                        stack: rest.stack,
                        env: cenv.push((param, arg)),
                        world: recorded(m.world, SpecEvent::Apply { fun: param, arg: "arg"@ }),
                        marks: m.marks,
                    };
                    let (m2, err) = machine_run((fuel - 1) as nat, inner, compiled(body));
                    match err {
                        Some(e) => (m2, Some(e)),
                        None => (
                            SpecMachine { stack: m2.stack, env: m.env, world: m2.world, marks: m2.marks },
                            None,
                        ),
                    }
                },
                _ => (rest, Some(SpecVmError::NotAFunction)),
            }
        },
        SpecIr::Pop => if m.stack.len() == 0 {
            (m, Some(SpecVmError::StackUnderflow))
        } else {
            let top = m.stack.last().0;
            let name = value_name(top);
            match popped(m.world, name) {
                None => (dropped(m), Some(SpecVmError::UnavailableOption(name))),
                Some(w) => (
                    pushed(with_world(dropped(m), w), SpecValue::Admissible(Box::new(top)), true),
                    None,
                ),
            }
        },
        SpecIr::Refuse(reason) => if m.stack.len() == 0 {
            (m, Some(SpecVmError::StackUnderflow))
        } else {
            let top = m.stack.last().0;
            (
                pushed(
                    with_world(
                        dropped(m),
                        recorded(m.world, SpecEvent::Refuse { target: value_name(top), reason }),
                    ),
                    SpecValue::Refused(Box::new(top), reason),
                    false,
                ),
                None,
            )
        },
        SpecIr::Collapse(rule) => if m.stack.len() == 0 {
            (m, Some(SpecVmError::StackUnderflow))
        } else {
            let top = m.stack.last().0;
            if m.stack.last().1 {
                (
                    pushed(
                        with_world(
                            dropped(m),
                            recorded(m.world, SpecEvent::Collapse { target: value_name(top), rule }),
                        ),
                        SpecValue::Collapsed(Box::new(top), rule),
                        true,
                    ),
                    None,
                )
            } else {
                (dropped(m), Some(SpecVmError::InadmissibleCollapse))
            }
        },
        SpecIr::Bind => if m.stack.len() == 0 {
            (m, Some(SpecVmError::StackUnderflow))
        } else if m.stack.len() == 1 {
            (dropped(m), Some(SpecVmError::StackUnderflow))
        } else {
            let rhs = m.stack.last().0;
            let lhs = m.stack.drop_last().last().0;
            let rest = SpecMachine {
                stack: m.stack.drop_last().drop_last(),
                env: m.env,
                world: m.world,
                marks: m.marks,
            };
            (
                pushed(
                    with_world(
                        rest,
                        recorded(
                            m.world,
                            SpecEvent::Bind { name: value_name(lhs), target: value_name(rhs) },
                        ),
                    ),
                    SpecValue::Process { from: Box::new(lhs), to: Box::new(rhs) },
                    true,
                ),
                None,
            )
        },
        SpecIr::OpenScope(name) => (
            with_world(
                m,
                SpecWorld {
                    options: m.world.options.insert(name),
                    history: m.world.history.push(SpecEvent::ScopeOpen(name)),
                    initial_size: m.world.initial_size,
                },
            ),
            None,
        ),
        SpecIr::CloseScope(name) => if m.world.options.contains(name) {
            (
                with_world(
                    m,
                    SpecWorld {
                        options: m.world.options.remove(name),
                        history: m.world.history.push(SpecEvent::ScopeClose(name)),
                        initial_size: m.world.initial_size,
                    },
                ),
                None,
            )
        } else {
            (m, Some(SpecVmError::Other(unbalanced_scope_text(name))))
        },
        SpecIr::BeginSeq => (
            SpecMachine { stack: m.stack, env: m.env, world: m.world, marks: m.marks.push(m.stack.len()) },
            None,
        ),
        SpecIr::EndSeq => if m.marks.len() == 0 {
            (m, None)
        } else {
            (
                SpecMachine {
                    stack: sequence_result(m.stack, m.marks.last()),
                    env: m.env,
                    world: m.world,
                    marks: m.marks.drop_last(),
                },
                None,
            )
        },
        SpecIr::Return => (m, None),
    }
}

/// Run the events `es` in order from `m`, with at most `fuel` nested
/// applications, stopping at the first error.
pub open spec fn machine_run(fuel: nat, m: SpecMachine, es: Seq<SpecIr>) -> (SpecMachine, Option<SpecVmError>)
    decreases fuel, 1nat, es.len(),
{
    if es.len() == 0 {
        (m, None)
    } else {
        let (m1, err) = machine_step(fuel, m, es[0]);
        match err {
            Some(e) => (m1, Some(e)),
            None => machine_run(fuel, m1, es.drop_first()),
        }
    }
}

/// The value a run yields: the value on top of the stack, or unit when the
/// stack is empty.
pub open spec fn top_or_unit(stack: Seq<(SpecValue, bool)>) -> SpecValue {
    if stack.len() == 0 {
        SpecValue::Unit
    } else {
        stack.last().0
    }
}

/// The models of a stack.
pub open spec fn stack_model(s: Seq<(Value, bool)>) -> Seq<(SpecValue, bool)> {
    s.map_values(|p: (Value, bool)| (p.0@, p.1))
}

/// The event machine: a stack of values, each with whether it is
/// admissible, an environment, a world, and the stack heights at which the
/// open sequences began.
pub struct Machine {
    pub stack: Vec<(Value, bool)>,
    pub env: Env,
    pub world: World,
    pub marks: Vec<usize>,
}

impl View for Machine {
    type V = SpecMachine;

    open spec fn view(&self) -> SpecMachine {
        SpecMachine {
            stack: stack_model(self.stack@),
            env: self.env@,
            world: self.world@,
            marks: self.marks@.map_values(|k: usize| k as nat),
        }
    }
}

impl Machine {
    /// A machine with an empty stack and environment, over a fresh world
    /// with the given options.
    pub fn new(options: Vec<Symbol>) -> (r: Machine)
        ensures
            r@.stack == Seq::<(SpecValue, bool)>::empty(),
            r@.env == Seq::<(Seq<char>, SpecValue)>::empty(),
            r@.marks == Seq::<nat>::empty(),
            r@.world == (SpecWorld {
                options: options@.map_values(|s: Symbol| s@).to_set(),
                history: Seq::empty(),
                initial_size: options@.map_values(|s: Symbol| s@).to_set().len(),
            }),
    {
        let m = Machine {
            stack: Vec::new(),
            env: Env::new(),
            world: World::new(OptionSpace::new(options)),
            marks: Vec::new(),
        };
        assert(m@.stack =~= Seq::<(SpecValue, bool)>::empty());
        assert(m@.marks =~= Seq::<nat>::empty());
        m
    }

    /// A machine with an empty stack and environment, over an empty world.
    pub fn empty() -> (r: Machine)
        ensures
            r@ == (SpecMachine {
                stack: Seq::empty(),
                env: Seq::empty(),
                world: SpecWorld { options: Set::empty(), history: Seq::empty(), initial_size: 0 },
                marks: Seq::empty(),
            }),
    {
        let m = Machine { stack: Vec::new(), env: Env::new(), world: World::empty(), marks: Vec::new() };
        assert(m@.stack =~= Seq::<(SpecValue, bool)>::empty());
        assert(m@.marks =~= Seq::<nat>::empty());
        m
    }

    fn push(&mut self, v: Value, admissible: bool)
        ensures
            final(self)@ == pushed(old(self)@, v@, admissible),
    {
        self.stack.push((v, admissible));
        assert(stack_model(self.stack@) =~= stack_model(old(self).stack@).push((v@, admissible)));
    }

    fn pop_stack(&mut self) -> (r: Result<(Value, bool), VmError>)
        ensures
            old(self)@.stack.len() == 0 ==> (final(self)@ == old(self)@ && (r matches Err(e) && e@
                == SpecVmError::StackUnderflow)),
            old(self)@.stack.len() > 0 ==> (final(self)@ == dropped(old(self)@) && (r matches Ok(p)
                && (p.0@, p.1) == old(self)@.stack.last())),
    {
        match self.stack.pop() {
            Some(p) => {
                assert(stack_model(self.stack@) =~= stack_model(old(self).stack@).drop_last());
                Ok(p)
            },
            None => Err(VmError::StackUnderflow),
        }
    }

    /// End the innermost open sequence: keep only its last value, or push
    /// unit when it pushed nothing.
    fn end_sequence(&mut self)
        ensures
            final(self)@ == machine_step(0, old(self)@, SpecIr::EndSeq).0,
    {
        let ghost m = self@;
        match self.marks.pop() {
            None => {},
            Some(h) => {
                assert(self@.marks =~= m.marks.drop_last());
                if self.stack.len() > h {
                    let top = self.stack.pop();
                    match top {
                        Some(t) => {
                            self.stack.truncate(h);
                            self.stack.push(t);
                        },
                        None => {},
                    }
                } else {
                    self.stack.push((Value::Unit, true));
                }
                assert(stack_model(self.stack@) =~= sequence_result(m.stack, h as nat));
            },
        }
    }

    /// Run every event of `block` in order, stopping at the first error;
    /// on success, the value on top of the stack (unit when it is empty).
    pub fn run(&mut self, block: &IrBlock) -> (r: Result<Value, VmError>)
        ensures
            final(self)@ == machine_run(MAX_DEPTH as nat, old(self)@, ir_model(block.events@)).0,
            match r {
                Ok(v) => machine_run(MAX_DEPTH as nat, old(self)@, ir_model(block.events@)).1 is None
                    && v@ == top_or_unit(final(self)@.stack),
                Err(e) => machine_run(MAX_DEPTH as nat, old(self)@, ir_model(block.events@)).1 == Some(
                    e@,
                ),
            },
    {
        match self.run_events(&block.events, MAX_DEPTH) {
            Ok(()) => {},
            Err(e) => return Err(e),
        }
        let n = self.stack.len();
        if n == 0 {
            Ok(Value::Unit)
        } else {
            Ok(self.stack[n - 1].0.clone())
        }
    }

    /// Run the events of `events` in order with at most `depth` nested
    /// applications, stopping at the first error.
    fn run_events(&mut self, events: &Vec<IrEvent>, depth: u64) -> (r: Result<(), VmError>)
        ensures
            final(self)@ == machine_run(depth as nat, old(self)@, ir_model(events@)).0,
            match r {
                Ok(()) => machine_run(depth as nat, old(self)@, ir_model(events@)).1 is None,
                Err(e) => machine_run(depth as nat, old(self)@, ir_model(events@)).1 == Some(e@),
            },
        decreases depth, 1nat,
    {
        let ghost es = ir_model(events@);
        let ghost m0 = self@;
        let mut i: usize = 0;
        assert(es.skip(0) =~= es);
        while i < events.len()
            invariant
                i <= events@.len(),
                es == ir_model(events@),
                machine_run(depth as nat, m0, es) == machine_run(depth as nat, self@, es.skip(i as int)),
                m0 == old(self)@,
            decreases events@.len() - i,
        {
            assert(es.skip(i as int)[0] == events@[i as int]@);
            assert(es.skip(i as int).drop_first() =~= es.skip(i + 1));
            match self.step(&events[i], depth) {
                Ok(()) => {},
                Err(e) => return Err(e),
            }
            i = i + 1;
        }
        assert(es.skip(i as int) =~= Seq::<SpecIr>::empty());
        Ok(())
    }

    fn step(&mut self, event: &IrEvent, depth: u64) -> (r: Result<(), VmError>)
        ensures
            final(self)@ == machine_step(depth as nat, old(self)@, event@).0,
            match r {
                Ok(()) => machine_step(depth as nat, old(self)@, event@).1 is None,
                Err(e) => machine_step(depth as nat, old(self)@, event@).1 == Some(e@),
            },
        decreases depth, 0nat,
    {
        let ghost m = self@;
        match event {
            IrEvent::Load(name) => {
                let sym = Symbol::from_string(name.clone());
                let val = match self.env.lookup(&sym) {
                    Some(v) => v.clone(),
                    None => Value::Symbol(sym),
                };
                self.push(val, true);
            },
            IrEvent::PushUnit => self.push(Value::Unit, true),
            IrEvent::PushUnitType => self.push(Value::TypeValue(Type::Unit), true),
            IrEvent::PushType(n) => self.push(Value::TypeValue(Type::Universe(*n)), true),
            IrEvent::Store(name) => {
                let (val, _) = match self.pop_stack() {
                    Ok(p) => p,
                    Err(e) => return Err(e),
                };
                self.env = self.env.extend(Symbol::from_string(name.clone()), val);
            },
            IrEvent::Forget => self.env.forget_latest(),
            IrEvent::Lambda { param, ty, body } => {
                let p = Symbol::from_string(param.clone());
                self.world.record_lam_intro(p.clone());
                let closure = Value::Closure {
                    param: p,
                    param_ty: ty.clone(),
                    body: Box::new((**body).clone()),
                    env: self.env.clone(),
                };
                self.push(closure, true);
            },
            IrEvent::Apply => {
                let (arg, _) = match self.pop_stack() {
                    Ok(p) => p,
                    Err(e) => return Err(e),
                };
                let (fun, _) = match self.pop_stack() {
                    Ok(p) => p,
                    Err(e) => return Err(e),
                };
                match fun {
                    Value::Closure { param, body, env: cenv, .. } => {
                        if depth == 0 {
                            return Err(VmError::Other(String::from_str("evaluation depth exhausted")));
                        }
                        self.world.record_apply(param.clone(), Symbol::new("arg"));
                        let mut saved = cenv.extend(param, arg);
                        std::mem::swap(&mut self.env, &mut saved);
                        let code = compile(&body);
                        match self.run_events(&code.events, depth - 1) {
                            Ok(()) => {},
                            Err(e) => return Err(e),
                        }
                        self.env = saved;
                    },
                    _ => return Err(VmError::NotAFunction),
                }
            },
            IrEvent::Pop => {
                let (top, _) = match self.pop_stack() {
                    Ok(p) => p,
                    Err(e) => return Err(e),
                };
                let name = value_to_symbol(&top);
                match self.world.pop(name.clone()) {
                    Ok(()) => {},
                    Err(_) => return Err(VmError::UnavailableOption(name.0)),
                }
                self.push(Value::Admissible(Box::new(top)), true);
            },
            IrEvent::Refuse(reason) => {
                let (top, _) = match self.pop_stack() {
                    Ok(p) => p,
                    Err(e) => return Err(e),
                };
                let name = value_to_symbol(&top);
                self.world.refuse(name, reason.clone());
                self.push(Value::Refused(Box::new(top), reason.clone()), false);
            },
            IrEvent::Collapse(rule) => {
                let (top, admissible) = match self.pop_stack() {
                    Ok(p) => p,
                    Err(e) => return Err(e),
                };
                if !admissible {
                    return Err(VmError::InadmissibleCollapse);
                }
                let name = value_to_symbol(&top);
                self.world.collapse(name, rule.clone());
                self.push(Value::Collapsed(Box::new(top), rule.clone()), true);
            },
            IrEvent::Bind => {
                let (rhs, _) = match self.pop_stack() {
                    Ok(p) => p,
                    Err(e) => return Err(e),
                };
                let (lhs, _) = match self.pop_stack() {
                    Ok(p) => p,
                    Err(e) => return Err(e),
                };
                self.world.bind(value_to_symbol(&lhs), value_to_symbol(&rhs));
                self.push(Value::Process { from: Box::new(lhs), to: Box::new(rhs) }, true);
            },
            IrEvent::OpenScope(name) => self.world.open_scope(Symbol::from_string(name.clone())),
            IrEvent::CloseScope(name) => {
                match self.world.close_scope(Symbol::from_string(name.clone())) {
                    Ok(()) => {},
                    Err(e) => return Err(VmError::Other(e.to_text())),
                }
            },
            IrEvent::BeginSeq => {
                let h = self.stack.len();
                self.marks.push(h);
                assert(self@.marks =~= m.marks.push(m.stack.len()));
            },
            IrEvent::EndSeq => self.end_sequence(),
            IrEvent::Return => {},
        }
        Ok(())
    }
}

} // verus!
