//! # Spherepop
//!
//! A history-first process calculus implementing admissibility geometry.
//!
//! A world is a history together with an option space. Evaluation returns a
//! result alongside the world it leaves: history only grows, the option space
//! only shrinks, and the size of the initial option space is conserved.
//! Observable state is always derived from history, never stored, under a
//! collapse rule that says which histories look alike. Compilation to the
//! event IR replays the history that interpretation records.

pub mod kernel;
pub mod syntax;
pub mod text;
pub mod types;
pub mod eval;
pub mod ir;
pub mod compiler;
pub mod vm;

pub use kernel::{
    World,
    event::{Symbol, RefusalReason, CollapseRule},
    option_space::OptionSpace,
    reachability::{
        ReachabilityGeometry, forward_project, deform, compose_deformations,
        possibility_functional, two_projection, fibre, verify_conservation,
    },
};
pub use syntax::{Term, parse};
pub use types::{Type, Context, TypeError, TypeMode, infer, infer_closed, infer_open};
pub use eval::{Value, Env, EvalResult, eval, eval_closed, eval_with_options, EvalError};
pub use ir::IrBlock;
pub use compiler::compile;
pub use vm::{Machine, VmError};

use vstd::prelude::*;
use crate::kernel::SpecWorld;
use crate::syntax::parser::parse_text;
use crate::syntax::ast::SpecTerm;
use crate::types::checker::{infer_type, type_error_text, SpecContext};
use crate::eval::interpreter::{eval_error_text, eval_term, MAX_DEPTH};
use crate::eval::value::SpecValue;

verus! {

/// The world a run starts from: the given options and an empty history.
pub open spec fn start_world(options: Seq<Seq<char>>) -> SpecWorld {
    SpecWorld {
        options: options.to_set(),
        history: Seq::empty(),
        initial_size: options.to_set().len(),
    }
}

/// What checking and interpreting the term `t` over `options` gives,
/// type-checking in `mode`: the value and the world afterwards, or the first
/// error, marked by the stage that raised it.
pub open spec fn term_run_outcome(t: SpecTerm, options: Seq<Seq<char>>, mode: TypeMode) -> Result<
    (SpecValue, SpecWorld),
    Seq<char>,
> {
    match infer_type(SpecContext { bindings: Seq::empty(), mode }, t) {
        Err(te) => Err("type error: "@ + type_error_text(te)),
        Ok(_) => {
            let (res, w) = eval_term(MAX_DEPTH as nat, t, Seq::empty(), start_world(options));
            match res {
                Err(e) => Err("eval error: "@ + eval_error_text(e)),
                Ok(x) => Ok((x.value, w)),
            }
        },
    }
}

/// What a run of `src` over `options` gives, type-checking in `mode`.
pub open spec fn run_outcome(src: Seq<char>, options: Seq<Seq<char>>, mode: TypeMode) -> Result<
    (SpecValue, SpecWorld),
    Seq<char>,
> {
    match parse_text(src) {
        Err(e) => Err("parse error: "@ + e),
        Ok(t) => term_run_outcome(t, options, mode),
    }
}

/// The model of a run's result.
pub open spec fn run_result(r: Result<(Value, World), String>) -> Result<(SpecValue, SpecWorld), Seq<char>> {
    match r {
        Ok((v, w)) => Ok((v@, w@)),
        Err(e) => Err(e@),
    }
}

fn symbols_of(options: &[&str]) -> (r: Vec<Symbol>)
    ensures
        r@.map_values(|s: Symbol| s@) == options@.map_values(|s: &str| s@),
{
    let mut out: Vec<Symbol> = Vec::new();
    let mut i: usize = 0;
    while i < options.len()
        invariant
            i <= options@.len(),
            out@.len() == i,
            forall|j: int| 0 <= j < i ==> (#[trigger] out@[j])@ == options@[j]@,
        decreases options@.len() - i,
    {
        let sym = Symbol::new(options[i]);
        out.push(sym);
        i = i + 1;
    }
    assert(out@.map_values(|s: Symbol| s@) =~= options@.map_values(|s: &str| s@));
    out
}

fn check_and_eval(term: &Term, options: &[&str], mode: TypeMode) -> (r: Result<(Value, World), String>)
    ensures
        run_result(r) == term_run_outcome(term@, options@.map_values(|s: &str| s@), mode),
{
    let ctx = match mode {
        TypeMode::OpenWorld => Context::open(),
        TypeMode::ClosedWorld => Context::closed(),
    };
    assert(ctx@.bindings =~= Seq::<(Seq<char>, crate::types::ty::SpecType)>::empty());
    match infer(&ctx, term) {
        Ok(_) => {},
        Err(e) => {
            let mut m = String::from_str("type error: ");
            let shown = e.to_text();
            m.append(shown.as_str());
            return Err(m);
        },
    }
    let syms = symbols_of(options);
    match eval_with_options(term, syms) {
        Ok((result, world)) => Ok((result.value, world)),
        Err(e) => {
            let mut m = String::from_str("eval error: ");
            let shown = e.to_text();
            m.append(shown.as_str());
            Err(m)
        },
    }
}

fn parse_error(e: String) -> (r: String)
    ensures
        r@ == "parse error: "@ + e@,
{
    let mut m = String::from_str("parse error: ");
    m.append(e.as_str());
    m
}

fn run_in(src: &str, options: &[&str], mode: TypeMode) -> (r: Result<(Value, World), String>)
    ensures
        run_result(r) == run_outcome(src@, options@.map_values(|s: &str| s@), mode),
{
    match parse(src) {
        Ok(term) => check_and_eval(&term, options, mode),
        Err(e) => Err(parse_error(e)),
    }
}

/// Parse, type-check (open-world), and interpret.
pub fn run(src: &str, options: &[&str]) -> (r: Result<(Value, World), String>)
    ensures
        run_result(r) == run_outcome(src@, options@.map_values(|s: &str| s@), TypeMode::OpenWorld),
{
    run_in(src, options, TypeMode::OpenWorld)
}

/// Parse, type-check (closed-world), and interpret.
pub fn run_strict(src: &str, options: &[&str]) -> (r: Result<(Value, World), String>)
    ensures
        run_result(r) == run_outcome(src@, options@.map_values(|s: &str| s@), TypeMode::ClosedWorld),
{
    run_in(src, options, TypeMode::ClosedWorld)
}

} // verus!
