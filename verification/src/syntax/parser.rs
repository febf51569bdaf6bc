//! A recursive-descent parser from tokens to terms.
//!
//! Each parsing function is specified by a spec function over the token
//! sequence and a position, giving the outcome and the position after it.

use vstd::prelude::*;
use crate::kernel::event::{CollapseRule, RefusalReason, SpecReason, SpecRule, Symbol};
use crate::syntax::ast::{lemma_terms_model, terms_model, SpecTerm, Term};
use crate::syntax::lexer::{lex, token_text, tokens_model, Lexer, SpecToken, Token};
use crate::types::ty::{SpecType, Type};

verus! {

broadcast use vstd::string::group_string_axioms;

/// The token at `p`, or `Eof` past the end.
pub open spec fn tok_at(ts: Seq<SpecToken>, p: int) -> SpecToken {
    if 0 <= p < ts.len() {
        ts[p]
    } else {
        SpecToken::Eof
    }
}

/// The position after reading one token at `p` (reading past the end stays).
pub open spec fn after(ts: Seq<SpecToken>, p: int) -> int {
    if 0 <= p < ts.len() {
        p + 1
    } else {
        p
    }
}

/// The position after an optional token `t` at `p`.
pub open spec fn skip_tok(ts: Seq<SpecToken>, p: int, t: SpecToken) -> int {
    if tok_at(ts, p) == t {
        after(ts, p)
    } else {
        p
    }
}

/// The outcome of a parsing function: its result and the position after it.
pub type Parsed<T> = (Result<T, Seq<char>>, int);

/// Reading an identifier at `p`.
pub open spec fn expect_ident_at(ts: Seq<SpecToken>, p: int) -> Parsed<Seq<char>> {
    (
        match tok_at(ts, p) {
            SpecToken::Ident(s) => Ok(s),
            other => Err("expected identifier, got "@ + token_text(other)),
        },
        after(ts, p),
    )
}

/// The collapse rule written at `p` (identity when none is written).
pub open spec fn collapse_rule_at(ts: Seq<SpecToken>, p: int) -> (SpecRule, int) {
    match tok_at(ts, p) {
        SpecToken::KwLastWrite => (SpecRule::LastWrite, p + 1),
        SpecToken::KwAccumulate => (SpecRule::Accumulate, p + 1),
        SpecToken::KwProj => {
            let p1 = skip_tok(ts, p + 1, SpecToken::LParen);
            let (label, p2) = match tok_at(ts, p1) {
                SpecToken::Ident(s) => (s, p1 + 1),
                _ => ("unnamed"@, p1),
            };
            (SpecRule::Projection(label), skip_tok(ts, p2, SpecToken::RParen))
        },
        SpecToken::Ident(name) => (
            if name == "id"@ {
                SpecRule::Identity
            } else {
                SpecRule::Named(name)
            },
            p + 1,
        ),
        _ => (SpecRule::Identity, p),
    }
}

/// The refusal reason written at `p` (an unspecified explicit reason when
/// none is written).
pub open spec fn reason_at(ts: Seq<SpecToken>, p: int) -> (SpecReason, int) {
    match tok_at(ts, p) {
        SpecToken::KwViolation => {
            let p1 = skip_tok(ts, p + 1, SpecToken::LParen);
            let (r, p2) = expect_ident_at(ts, p1);
            let name = match r {
                Ok(s) => s,
                Err(_) => "constraint"@,
            };
            (SpecReason::ConstraintViolation(name), skip_tok(ts, p2, SpecToken::RParen))
        },
        SpecToken::KwExplicit => {
            let p1 = skip_tok(ts, p + 1, SpecToken::LParen);
            let (msg, p2) = match tok_at(ts, p1) {
                SpecToken::Ident(s) => (s, p1 + 1),
                _ => ("unspecified"@, p1),
            };
            (SpecReason::Explicit(msg), skip_tok(ts, p2, SpecToken::RParen))
        },
        _ => (SpecReason::Explicit("unspecified"@), p),
    }
}

/// The function type `a -> b` as the parser builds it.
pub open spec fn arrow_type(a: SpecType, b: SpecType) -> SpecType {
    SpecType::Pi { param: "_"@, param_ty: Box::new(a), body_ty: Box::new(b) }
}

/// Parsing a type at `p`.
pub open spec fn type_at(ts: Seq<SpecToken>, p: int) -> Parsed<SpecType>
    decreases ts.len() - p,
{
    match tok_at(ts, p) {
        SpecToken::KwUnit => (Ok(SpecType::Unit), p + 1),
        SpecToken::KwNever => (Ok(SpecType::Never), p + 1),
        SpecToken::KwType => match tok_at(ts, p + 1) {
            SpecToken::Number(n) => (Ok(SpecType::Universe(n)), p + 2),
            _ => (Ok(SpecType::Universe(0)), p + 1),
        },
        SpecToken::KwAdmissible => {
            let p1 = skip_tok(ts, p + 1, SpecToken::LParen);
            let (r, p2) = type_at(ts, p1);
            match r {
                Err(e) => (Err(e), p2),
                Ok(t) => (
                    Ok(SpecType::Admissible(Box::new(t))),
                    skip_tok(ts, p2, SpecToken::RParen),
                ),
            }
        },
        SpecToken::Ident(name) => if tok_at(ts, p + 1) == SpecToken::Arrow {
            let (r, p2) = type_at(ts, p + 2);
            match r {
                Err(e) => (Err(e), p2),
                Ok(rhs) => (Ok(arrow_type(SpecType::Var(name), rhs)), p2),
            }
        } else {
            (Ok(SpecType::Var(name)), p + 1)
        },
        SpecToken::LParen => {
            let (r, p1) = type_at(ts, p + 1);
            match r {
                Err(e) => (Err(e), p1),
                Ok(t) => if tok_at(ts, p1) == SpecToken::Arrow {
                    if p < p1 + 1 <= ts.len() {
                        let (r2, p2) = type_at(ts, p1 + 1);
                        match r2 {
                            Err(e) => (Err(e), p2),
                            Ok(rhs) => (Ok(arrow_type(t, rhs)), skip_tok(ts, p2, SpecToken::RParen)),
                        }
                    } else {
                        (Err(Seq::empty()), p1)
                    }
                } else {
                    (Ok(t), skip_tok(ts, p1, SpecToken::RParen))
                },
            }
        },
        other => (Err("unexpected token in type: "@ + token_text(other)), p),
    }
}

/// Parsing a term at `p`.
pub open spec fn term_at(ts: Seq<SpecToken>, p: int) -> Parsed<SpecTerm>
    decreases ts.len() - p, 2nat,
{
    match tok_at(ts, p) {
        SpecToken::Lambda => {
            let (ri, p1) = expect_ident_at(ts, p + 1);
            match ri {
                Err(e) => (Err(e), p1),
                Ok(param) => {
                    let (rt, p2) = if tok_at(ts, p1) == SpecToken::Colon {
                        type_at(ts, p1 + 1)
                    } else {
                        (Ok(SpecType::Unit), p1)
                    };
                    match rt {
                        Err(e) => (Err(e), p2),
                        Ok(ty) => {
                            let p3 = if tok_at(ts, p2) == SpecToken::Arrow || tok_at(ts, p2)
                                == SpecToken::Dot {
                                p2 + 1
                            } else {
                                p2
                            };
                            if p < p3 <= ts.len() {
                                let (rb, p4) = term_at(ts, p3);
                                match rb {
                                    Err(e) => (Err(e), p4),
                                    Ok(body) => (
                                        Ok(SpecTerm::Lam { param, ty, body: Box::new(body) }),
                                        p4,
                                    ),
                                }
                            } else {
                                (Err(Seq::empty()), p3)
                            }
                        },
                    }
                },
            }
        },
        SpecToken::KwLet => {
            let (ri, p1) = expect_ident_at(ts, p + 1);
            match ri {
                Err(e) => (Err(e), p1),
                Ok(name) => {
                    let p2 = skip_tok(ts, p1, SpecToken::Eq);
                    let (rv, p3) = term_at(ts, p2);
                    match rv {
                        Err(e) => (Err(e), p3),
                        Ok(value) => {
                            let p4 = skip_tok(ts, p3, SpecToken::KwIn);
                            if p < p4 <= ts.len() {
                                let (rb, p5) = term_at(ts, p4);
                                match rb {
                                    Err(e) => (Err(e), p5),
                                    Ok(body) => (
                                        Ok(
                                            SpecTerm::Let {
                                                name,
                                                value: Box::new(value),
                                                body: Box::new(body),
                                            },
                                        ),
                                        p5,
                                    ),
                                }
                            } else {
                                (Err(Seq::empty()), p4)
                            }
                        },
                    }
                },
            }
        },
        SpecToken::KwPop => {
            let (r, p1) = atom_at(ts, p + 1);
            match r {
                Err(e) => (Err(e), p1),
                Ok(i) => (Ok(SpecTerm::Pop(Box::new(i))), p1),
            }
        },
        SpecToken::KwRefuse => {
            let (r, p1) = atom_at(ts, p + 1);
            match r {
                Err(e) => (Err(e), p1),
                Ok(i) => {
                    let (reason, p2) = reason_at(ts, p1);
                    (Ok(SpecTerm::Refuse(Box::new(i), reason)), p2)
                },
            }
        },
        SpecToken::KwCollapse => {
            let (r, p1) = atom_at(ts, p + 1);
            match r {
                Err(e) => (Err(e), p1),
                Ok(i) => {
                    let (rule, p2) = collapse_rule_at(ts, p1);
                    (Ok(SpecTerm::Collapse(Box::new(i), rule)), p2)
                },
            }
        },
        SpecToken::KwBind => {
            let (ra, p1) = atom_at(ts, p + 1);
            match ra {
                Err(e) => (Err(e), p1),
                Ok(a) => if p < p1 <= ts.len() {
                    let (rb, p2) = atom_at(ts, p1);
                    match rb {
                        Err(e) => (Err(e), p2),
                        Ok(b) => (Ok(SpecTerm::Bind(Box::new(a), Box::new(b))), p2),
                    }
                } else {
                    (Err(Seq::empty()), p1)
                },
            }
        },
        SpecToken::KwSeq => {
            let p1 = skip_tok(ts, p + 1, SpecToken::LBracket);
            let (r, p2) = items_at(ts, p1, Seq::empty());
            match r {
                Err(e) => (Err(e), p2),
                Ok(items) => (Ok(SpecTerm::Sequence(items)), skip_tok(ts, p2, SpecToken::RBracket)),
            }
        },
        _ => app_at(ts, p),
    }
}

/// Parsing the terms of a sequence at `p`, after the terms `acc`.
pub open spec fn items_at(ts: Seq<SpecToken>, p: int, acc: Seq<SpecTerm>) -> Parsed<Seq<SpecTerm>>
    decreases ts.len() - p, 3nat,
{
    if tok_at(ts, p) == SpecToken::RBracket || tok_at(ts, p) == SpecToken::Eof {
        (Ok(acc), p)
    } else {
        let (r, p1) = term_at(ts, p);
        match r {
            Err(e) => (Err(e), p1),
            Ok(t) => {
                let p2 = skip_tok(ts, p1, SpecToken::Semi);
                if p < p2 <= ts.len() {
                    items_at(ts, p2, acc.push(t))
                } else {
                    (Err(Seq::empty()), p2)
                }
            },
        }
    }
}

/// Parsing an application at `p`: an atom applied to the atoms after it.
pub open spec fn app_at(ts: Seq<SpecToken>, p: int) -> Parsed<SpecTerm>
    decreases ts.len() - p, 1nat,
{
    let (r, p1) = atom_at(ts, p);
    match r {
        Err(e) => (Err(e), p1),
        Ok(t) => if p < p1 <= ts.len() {
            app_rest(ts, p1, t)
        } else {
            (Err(Seq::empty()), p1)
        },
    }
}

/// Whether the token can start an argument of an application.
pub open spec fn starts_argument(t: SpecToken) -> bool {
    t == SpecToken::LParen || t is Ident || t == SpecToken::KwType || t == SpecToken::KwUnit
}

/// Applying `acc` to the atoms that follow at `p`, left to right.
pub open spec fn app_rest(ts: Seq<SpecToken>, p: int, acc: SpecTerm) -> Parsed<SpecTerm>
    decreases ts.len() - p, 1nat,
{
    if starts_argument(tok_at(ts, p)) {
        let (r, p1) = atom_at(ts, p);
        match r {
            Err(e) => (Err(e), p1),
            Ok(arg) => if p < p1 <= ts.len() {
                app_rest(ts, p1, SpecTerm::App(Box::new(acc), Box::new(arg)))
            } else {
                (Err(Seq::empty()), p1)
            },
        }
    } else {
        (Ok(acc), p)
    }
}

/// Parsing an atom at `p`.
pub open spec fn atom_at(ts: Seq<SpecToken>, p: int) -> Parsed<SpecTerm>
    decreases ts.len() - p, 0nat,
{
    match tok_at(ts, p) {
        SpecToken::Ident(x) => (Ok(SpecTerm::Var(x)), p + 1),
        SpecToken::KwType => (Ok(SpecTerm::Universe(0)), p + 1),
        SpecToken::KwUnit => (Ok(SpecTerm::Var("unit"@)), p + 1),
        SpecToken::Number(n) => (Ok(SpecTerm::Universe(n)), p + 1),
        SpecToken::LParen => {
            let (r, p1) = term_at(ts, p + 1);
            match r {
                Err(e) => (Err(e), p1),
                Ok(t) => if tok_at(ts, p1) == SpecToken::Colon {
                    let (rt, p2) = type_at(ts, p1 + 1);
                    match rt {
                        Err(e) => (Err(e), p2),
                        Ok(ty) => (Ok(SpecTerm::Ann(Box::new(t), ty)), skip_tok(ts, p2, SpecToken::RParen)),
                    }
                } else {
                    (Ok(t), skip_tok(ts, p1, SpecToken::RParen))
                },
            }
        },
        other => (Err("unexpected token in atom: "@ + token_text(other)), p),
    }
}

/// The outcome of parsing `src`: its tokens parsed as one term (tokens after
/// that term are ignored).
pub open spec fn parse_text(src: Seq<char>) -> Result<SpecTerm, Seq<char>> {
    term_at(lex(src), 0).0
}

/// The model of a parse result.
pub open spec fn term_outcome(r: Result<Term, String>) -> Result<SpecTerm, Seq<char>> {
    match r {
        Ok(t) => Ok(t@),
        Err(e) => Err(e@),
    }
}

/// The model of a type parse result.
pub open spec fn type_outcome(r: Result<Type, String>) -> Result<SpecType, Seq<char>> {
    match r {
        Ok(t) => Ok(t@),
        Err(e) => Err(e@),
    }
}

/// Builds terms from tokens.
pub struct Parser {
    tokens: Vec<Token>,
    pos: usize,
}

impl Parser {
    #[verifier::type_invariant]
    spec fn inv(self) -> bool {
        self.pos <= self.tokens.len()
    }

    /// The tokens being parsed.
    pub closed spec fn toks(self) -> Seq<SpecToken> {
        tokens_model(self.tokens@)
    }

    /// The position of the next token to read.
    pub closed spec fn position(self) -> int {
        self.pos as int
    }

    /// A parser at the first of `tokens`.
    pub fn new(tokens: Vec<Token>) -> (r: Parser)
        ensures
            r.toks() == tokens_model(tokens@),
            r.position() == 0,
    {
        Parser { tokens, pos: 0 }
    }

    fn peek(&self) -> (r: Token)
        ensures
            r@ == tok_at(self.toks(), self.pos as int),
    {
        if self.pos < self.tokens.len() {
            self.tokens[self.pos].clone()
        } else {
            Token::Eof
        }
    }

    fn advance(&mut self) -> (r: Token)
        ensures
            final(self).toks() == old(self).toks(),
            r@ == tok_at(old(self).toks(), old(self).pos as int),
            final(self).pos == after(old(self).toks(), old(self).pos as int),
    {
        proof {
            use_type_invariant(&*self);
        }
        if self.pos < self.tokens.len() {
            let t = self.tokens[self.pos].clone();
            self.pos = self.pos + 1;
            t
        } else {
            Token::Eof
        }
    }

    /// Read the token `LParen` if it is next.
    fn skip_lparen(&mut self)
        ensures
            final(self).toks() == old(self).toks(),
            final(self).pos == skip_tok(old(self).toks(), old(self).pos as int, SpecToken::LParen),
    {
        if let Token::LParen = self.peek() {
            self.advance();
        }
    }

    /// Read the token `RParen` if it is next.
    fn skip_rparen(&mut self)
        ensures
            final(self).toks() == old(self).toks(),
            final(self).pos == skip_tok(old(self).toks(), old(self).pos as int, SpecToken::RParen),
    {
        if let Token::RParen = self.peek() {
            self.advance();
        }
    }

    fn expect_ident(&mut self) -> (r: Result<Symbol, String>)
        ensures
            final(self).toks() == old(self).toks(),
            (
                match r {
                    Ok(s) => Ok(s@),
                    Err(e) => Err(e@),
                },
                final(self).pos as int,
            ) == expect_ident_at(old(self).toks(), old(self).pos as int),
    {
        match self.advance() {
            Token::Ident(s) => Ok(Symbol::from_string(s)),
            other => {
                let mut m = String::from_str("expected identifier, got ");
                let shown = other.to_text();
                m.append(shown.as_str());
                Err(m)
            },
        }
    }

    /// Parse a collapse rule (after the `collapse` keyword and its operand).
    fn parse_collapse_rule(&mut self) -> (r: CollapseRule)
        ensures
            final(self).toks() == old(self).toks(),
            (r@, final(self).pos as int) == collapse_rule_at(old(self).toks(), old(self).pos as int),
    {
        proof {
            reveal_strlit("id");
        }
        match self.peek() {
            Token::KwLastWrite => {
                self.advance();
                CollapseRule::LastWrite
            },
            Token::KwAccumulate => {
                self.advance();
                CollapseRule::Accumulate
            },
            Token::KwProj => {
                self.advance();
                self.skip_lparen();
                let label = if let Token::Ident(s) = self.peek() {
                    self.advance();
                    Symbol::from_string(s)
                } else {
                    Symbol::new("unnamed")
                };
                self.skip_rparen();
                CollapseRule::Projection(label)
            },
            Token::Ident(name) => {
                self.advance();
                if crate::text::same_text(name.as_str(), "id") {
                    CollapseRule::Identity
                } else {
                    CollapseRule::Named(Symbol::from_string(name))
                }
            },
            _ => CollapseRule::Identity,
        }
    }

    /// Parse a refusal reason (after the `refuse` keyword and its operand).
    fn parse_refusal_reason(&mut self) -> (r: RefusalReason)
        ensures
            final(self).toks() == old(self).toks(),
            (r@, final(self).pos as int) == reason_at(old(self).toks(), old(self).pos as int),
    {
        match self.peek() {
            Token::KwViolation => {
                self.advance();
                self.skip_lparen();
                let name = match self.expect_ident() {
                    Ok(s) => s,
                    Err(_) => Symbol::new("constraint"),
                };
                self.skip_rparen();
                RefusalReason::ConstraintViolation(name)
            },
            Token::KwExplicit => {
                self.advance();
                self.skip_lparen();
                let msg = if let Token::Ident(s) = self.peek() {
                    self.advance();
                    s
                } else {
                    String::from_str("unspecified")
                };
                self.skip_rparen();
                RefusalReason::Explicit(msg)
            },
            _ => RefusalReason::Explicit(String::from_str("unspecified")),
        }
    }

    /// Parse a type at the current position.
    pub fn parse_type(&mut self) -> (r: Result<Type, String>)
        ensures
            final(self).toks() == old(self).toks(),
            (type_outcome(r), final(self).position()) == type_at(old(self).toks(), old(self).position()),
            old(self).position() <= final(self).position() <= final(self).toks().len(),
            r is Ok ==> old(self).position() < final(self).position(),
        decreases old(self).toks().len() - old(self).position(),
    {
        proof {
            use_type_invariant(&*self);
        }
        match self.peek() {
            Token::KwUnit => {
                self.advance();
                Ok(Type::Unit)
            },
            Token::KwNever => {
                self.advance();
                Ok(Type::Never)
            },
            Token::KwType => {
                self.advance();
                match self.peek() {
                    Token::Number(n) => {
                        self.advance();
                        Ok(Type::Universe(n))
                    },
                    _ => Ok(Type::Universe(0)),
                }
            },
            Token::KwAdmissible => {
                self.advance();
                self.skip_lparen();
                proof {
                    use_type_invariant(&*self);
                }
                let t = match self.parse_type() {
                    Ok(t) => t,
                    Err(e) => return Err(e),
                };
                self.skip_rparen();
                Ok(Type::Admissible(Box::new(t)))
            },
            Token::Ident(_) => {
                let name = match self.expect_ident() {
                    Ok(s) => s,
                    Err(e) => return Err(e),
                };
                if let Token::Arrow = self.peek() {
                    self.advance();
                    proof {
                        use_type_invariant(&*self);
                    }
                    let rhs = match self.parse_type() {
                        Ok(t) => t,
                        Err(e) => return Err(e),
                    };
                    let lhs = Type::Var(name);
                    assert(lhs@ == SpecType::Var(name@));
                    Ok(Type::Pi { param: Symbol::new("_"), param_ty: Box::new(lhs), body_ty: Box::new(rhs) })
                } else {
                    Ok(Type::Var(name))
                }
            },
            Token::LParen => {
                self.advance();
                proof {
                    use_type_invariant(&*self);
                }
                let t = match self.parse_type() {
                    Ok(t) => t,
                    Err(e) => return Err(e),
                };
                if let Token::Arrow = self.peek() {
                    self.advance();
                    proof {
                        use_type_invariant(&*self);
                    }
                    let rhs = match self.parse_type() {
                        Ok(t) => t,
                        Err(e) => return Err(e),
                    };
                    self.skip_rparen();
                    Ok(
                        Type::Pi {
                            param: Symbol::new("_"),
                            param_ty: Box::new(t),
                            body_ty: Box::new(rhs),
                        },
                    )
                } else {
                    self.skip_rparen();
                    Ok(t)
                }
            },
            other => {
                let mut m = String::from_str("unexpected token in type: ");
                let shown = other.to_text();
                m.append(shown.as_str());
                Err(m)
            },
        }
    }

    /// Parse a term at the current position.
    pub fn parse_term(&mut self) -> (r: Result<Term, String>)
        ensures
            final(self).toks() == old(self).toks(),
            (term_outcome(r), final(self).position()) == term_at(old(self).toks(), old(self).position()),
            old(self).position() <= final(self).position() <= final(self).toks().len(),
            r is Ok ==> old(self).position() < final(self).position(),
        decreases old(self).toks().len() - old(self).position(), 3nat,
    {
        proof {
            use_type_invariant(&*self);
        }
        match self.peek() {
            Token::Lambda => self.parse_lambda(),
            Token::KwLet => self.parse_let(),
            Token::KwPop => {
                self.advance();
                proof {
                    use_type_invariant(&*self);
                }
                let inner = match self.parse_atom() {
                    Ok(t) => t,
                    Err(e) => return Err(e),
                };
                Ok(Term::Pop(Box::new(inner)))
            },
            Token::KwRefuse => {
                self.advance();
                proof {
                    use_type_invariant(&*self);
                }
                let inner = match self.parse_atom() {
                    Ok(t) => t,
                    Err(e) => return Err(e),
                };
                // Optional reason: refuse x violation(some_constraint)
                let reason = self.parse_refusal_reason();
                Ok(Term::Refuse(Box::new(inner), reason))
            },
            Token::KwCollapse => {
                self.advance();
                proof {
                    use_type_invariant(&*self);
                }
                let inner = match self.parse_atom() {
                    Ok(t) => t,
                    Err(e) => return Err(e),
                };
                // Optional rule: collapse x last_write
                let rule = self.parse_collapse_rule();
                Ok(Term::Collapse(Box::new(inner), rule))
            },
            Token::KwBind => {
                self.advance();
                proof {
                    use_type_invariant(&*self);
                }
                let lhs = match self.parse_atom() {
                    Ok(t) => t,
                    Err(e) => return Err(e),
                };
                proof {
                    use_type_invariant(&*self);
                }
                let rhs = match self.parse_atom() {
                    Ok(t) => t,
                    Err(e) => return Err(e),
                };
                Ok(Term::Bind(Box::new(lhs), Box::new(rhs)))
            },
            Token::KwSeq => self.parse_seq(),
            _ => self.parse_app(),
        }
    }

    fn parse_lambda(&mut self) -> (r: Result<Term, String>)
        requires
            tok_at(old(self).toks(), old(self).position()) == SpecToken::Lambda,
        ensures
            final(self).toks() == old(self).toks(),
            (term_outcome(r), final(self).position()) == term_at(old(self).toks(), old(self).position()),
            old(self).position() <= final(self).position() <= final(self).toks().len(),
            r is Ok ==> old(self).position() < final(self).position(),
        decreases old(self).toks().len() - old(self).position(), 2nat,
    {
        proof {
            use_type_invariant(&*self);
        }
        let ghost ts = self.toks();
        let ghost p = self.pos as int;
        self.advance();
        let param = match self.expect_ident() {
            Ok(s) => s,
            Err(e) => return Err(e),
        };
        let ty = if let Token::Colon = self.peek() {
            self.advance();
            match self.parse_type() {
                Ok(t) => t,
                Err(e) => return Err(e),
            }
        } else {
            Type::Unit
        };
        match self.peek() {
            Token::Arrow | Token::Dot => {
                self.advance();
            },
            _ => {},
        }
        proof {
            use_type_invariant(&*self);
        }
        let body = match self.parse_term() {
            Ok(t) => t,
            Err(e) => return Err(e),
        };
        Ok(Term::Lam { param, ty: Box::new(ty), body: Box::new(body) })
    }

    fn parse_let(&mut self) -> (r: Result<Term, String>)
        requires
            tok_at(old(self).toks(), old(self).position()) == SpecToken::KwLet,
        ensures
            final(self).toks() == old(self).toks(),
            (term_outcome(r), final(self).position()) == term_at(old(self).toks(), old(self).position()),
            old(self).position() <= final(self).position() <= final(self).toks().len(),
            r is Ok ==> old(self).position() < final(self).position(),
        decreases old(self).toks().len() - old(self).position(), 2nat,
    {
        proof {
            use_type_invariant(&*self);
        }
        let ghost ts = self.toks();
        let ghost p = self.pos as int;
        self.advance();
        let name = match self.expect_ident() {
            Ok(s) => s,
            Err(e) => return Err(e),
        };
        if let Token::Eq = self.peek() {
            self.advance();
        }
        proof {
            use_type_invariant(&*self);
        }
        let value = match self.parse_term() {
            Ok(t) => t,
            Err(e) => return Err(e),
        };
        if let Token::KwIn = self.peek() {
            self.advance();
        }
        proof {
            use_type_invariant(&*self);
        }
        let body = match self.parse_term() {
            Ok(t) => t,
            Err(e) => return Err(e),
        };
        Ok(Term::Let { name, value: Box::new(value), body: Box::new(body) })
    }

    fn parse_seq(&mut self) -> (r: Result<Term, String>)
        requires
            tok_at(old(self).toks(), old(self).position()) == SpecToken::KwSeq,
        ensures
            final(self).toks() == old(self).toks(),
            (term_outcome(r), final(self).position()) == term_at(old(self).toks(), old(self).position()),
            old(self).position() <= final(self).position() <= final(self).toks().len(),
            r is Ok ==> old(self).position() < final(self).position(),
        decreases old(self).toks().len() - old(self).position(), 2nat,
    {
        proof {
            use_type_invariant(&*self);
        }
        let ghost ts = self.toks();
        let ghost p = self.pos as int;
        self.advance();
        if let Token::LBracket = self.peek() {
            self.advance();
        }
        let ghost p1 = self.pos as int;
        let mut terms: Vec<Term> = Vec::new();
        proof {
            lemma_terms_model(terms@);
            assert(terms_model(terms@) =~= Seq::<SpecTerm>::empty());
        }
        loop
            invariant
                self.toks() == ts,
                p < p1 <= self.pos <= ts.len(),
                ts.len() == old(self).toks().len(),
                items_at(ts, self.pos as int, terms_model(terms@)) == items_at(
                    ts,
                    p1,
                    Seq::empty(),
                ),
                term_at(ts, p) == ({
                    let (r, p2) = items_at(ts, p1, Seq::empty());
                    match r {
                        Err(e) => (Err(e), p2),
                        Ok(items) => (
                            Ok(SpecTerm::Sequence(items)),
                            skip_tok(ts, p2, SpecToken::RBracket),
                        ),
                    }
                }),
                p == old(self).position(),
                ts == old(self).toks(),
            ensures
                self.toks() == ts,
                p < p1 <= self.pos <= ts.len(),
                items_at(ts, self.pos as int, terms_model(terms@)) == items_at(ts, p1, Seq::empty()),
                tok_at(ts, self.pos as int) == SpecToken::RBracket || tok_at(ts, self.pos as int)
                    == SpecToken::Eof,
            decreases ts.len() - self.pos,
        {
            proof {
                use_type_invariant(&*self);
            }
            match self.peek() {
                Token::RBracket | Token::Eof => break,
                _ => {},
            }
            let ghost before = terms@;
            let t = match self.parse_term() {
                Ok(t) => t,
                Err(e) => return Err(e),
            };
            let ghost tv = t@;
            terms.push(t);
            assert(terms@.drop_last() =~= before);
            assert(terms_model(terms@) == terms_model(before).push(tv));
            if let Token::Semi = self.peek() {
                self.advance();
            }
        }
        if let Token::RBracket = self.peek() {
            self.advance();
        }
        Ok(Term::Sequence(terms))
    }

    fn parse_app(&mut self) -> (r: Result<Term, String>)
        ensures
            final(self).toks() == old(self).toks(),
            (term_outcome(r), final(self).position()) == app_at(old(self).toks(), old(self).position()),
            old(self).position() <= final(self).position() <= final(self).toks().len(),
            r is Ok ==> old(self).position() < final(self).position(),
        decreases old(self).toks().len() - old(self).position(), 1nat,
    {
        proof {
            use_type_invariant(&*self);
        }
        let ghost ts = self.toks();
        let ghost p = self.pos as int;
        let mut t = match self.parse_atom() {
            Ok(t) => t,
            Err(e) => return Err(e),
        };
        loop
            invariant
                self.toks() == ts,
                ts == old(self).toks(),
                p == old(self).position(),
                p < self.pos <= ts.len(),
                app_rest(ts, self.pos as int, t@) == app_at(ts, p),
            ensures
                self.toks() == ts,
                p < self.pos <= ts.len(),
                app_rest(ts, self.pos as int, t@) == app_at(ts, p),
                !starts_argument(tok_at(ts, self.pos as int)),
            decreases ts.len() - self.pos,
        {
            proof {
                use_type_invariant(&*self);
            }
            match self.peek() {
                Token::LParen | Token::Ident(_) | Token::KwType | Token::KwUnit => {
                    let arg = match self.parse_atom() {
                        Ok(a) => a,
                        Err(e) => return Err(e),
                    };
                    t = Term::App(Box::new(t), Box::new(arg));
                },
                _ => break,
            }
        }
        Ok(t)
    }

    fn parse_atom(&mut self) -> (r: Result<Term, String>)
        ensures
            final(self).toks() == old(self).toks(),
            (term_outcome(r), final(self).position()) == atom_at(old(self).toks(), old(self).position()),
            old(self).position() <= final(self).position() <= final(self).toks().len(),
            r is Ok ==> old(self).position() < final(self).position(),
        decreases old(self).toks().len() - old(self).position(), 0nat,
    {
        proof {
            use_type_invariant(&*self);
            reveal_strlit("unit");
        }
        match self.peek() {
            Token::Ident(x) => {
                self.advance();
                Ok(Term::Var(Symbol::from_string(x)))
            },
            Token::KwType => {
                self.advance();
                Ok(Term::Universe(0))
            },
            Token::KwUnit => {
                self.advance();
                Ok(Term::var("unit"))
            },
            Token::Number(n) => {
                self.advance();
                Ok(Term::Universe(n))
            },
            Token::LParen => {
                self.advance();
                proof {
                    use_type_invariant(&*self);
                }
                let t = match self.parse_term() {
                    Ok(t) => t,
                    Err(e) => return Err(e),
                };
                let result = if let Token::Colon = self.peek() {
                    self.advance();
                    let ty = match self.parse_type() {
                        Ok(ty) => ty,
                        Err(e) => return Err(e),
                    };
                    Term::Ann(Box::new(t), Box::new(ty))
                } else {
                    t
                };
                self.skip_rparen();
                Ok(result)
            },
            other => {
                let mut m = String::from_str("unexpected token in atom: ");
                let shown = other.to_text();
                m.append(shown.as_str());
                Err(m)
            },
        }
    }
}

/// Parse source text into a term.
pub fn parse(src: &str) -> (r: Result<Term, String>)
    ensures
        term_outcome(r) == parse_text(src@),
{
    let mut lexer = Lexer::new(src);
    let tokens = lexer.tokenize();
    let mut parser = Parser::new(tokens);
    parser.parse_term()
}

/// The collapse rule written after a collapse's operand is the rule its
/// words name: `accumulate` the accumulate rule, `last_write` the last-write
/// rule, `id` the identity, `proj(l)` projection onto `l`, any other name a
/// named rule; each consumes what it reads. Where no rule is written, the
/// rule is the identity and nothing is consumed.
pub proof fn law_collapse_rule_written(ts: Seq<SpecToken>, p: int, n: Seq<char>)
    requires
        0 <= p,
    ensures
        tok_at(ts, p) == SpecToken::KwAccumulate ==> collapse_rule_at(ts, p) == (SpecRule::Accumulate, p + 1),
        tok_at(ts, p) == SpecToken::KwLastWrite ==> collapse_rule_at(ts, p) == (SpecRule::LastWrite, p + 1),
        tok_at(ts, p) == SpecToken::Ident("id"@) ==> collapse_rule_at(ts, p) == (SpecRule::Identity, p + 1),
        tok_at(ts, p) == SpecToken::Ident(n) && n != "id"@ ==> collapse_rule_at(ts, p) == (
            SpecRule::Named(n),
            p + 1,
        ),
        p + 4 <= ts.len() && ts[p] == SpecToken::KwProj && ts[p + 1] == SpecToken::LParen && ts[p + 2]
            == SpecToken::Ident(n) && ts[p + 3] == SpecToken::RParen ==> collapse_rule_at(ts, p) == (
            SpecRule::Projection(n),
            p + 4,
        ),
        !(tok_at(ts, p) is KwAccumulate || tok_at(ts, p) is KwLastWrite || tok_at(ts, p) is KwProj
            || tok_at(ts, p) is Ident) ==> collapse_rule_at(ts, p) == (SpecRule::Identity, p),
{
}

/// The refusal reason written after a refusal's operand: `violation(c)` a
/// violation of constraint `c`, `explicit(m)` the explicit message `m`;
/// where none is written, an unspecified explicit reason, consuming nothing.
pub proof fn law_reason_written(ts: Seq<SpecToken>, p: int, n: Seq<char>)
    requires
        0 <= p,
    ensures
        p + 4 <= ts.len() && ts[p] == SpecToken::KwViolation && ts[p + 1] == SpecToken::LParen && ts[p
            + 2] == SpecToken::Ident(n) && ts[p + 3] == SpecToken::RParen ==> reason_at(ts, p) == (
            SpecReason::ConstraintViolation(n),
            p + 4,
        ),
        p + 4 <= ts.len() && ts[p] == SpecToken::KwExplicit && ts[p + 1] == SpecToken::LParen && ts[p
            + 2] == SpecToken::Ident(n) && ts[p + 3] == SpecToken::RParen ==> reason_at(ts, p) == (
            SpecReason::Explicit(n),
            p + 4,
        ),
        !(tok_at(ts, p) is KwViolation || tok_at(ts, p) is KwExplicit) ==> reason_at(ts, p) == (
            SpecReason::Explicit("unspecified"@),
            p,
        ),
{
}

/// `collapse`, `refuse` and `pop` followed by an operand build the term of
/// that operand with the rule or reason written after it.
pub proof fn law_effect_terms(ts: Seq<SpecToken>, p: int, i: SpecTerm, p1: int)
    requires
        0 <= p,
        atom_at(ts, p + 1) == (Ok::<SpecTerm, Seq<char>>(i), p1),
    ensures
        tok_at(ts, p) == SpecToken::KwCollapse ==> term_at(ts, p) == (
            Ok::<SpecTerm, Seq<char>>(SpecTerm::Collapse(Box::new(i), collapse_rule_at(ts, p1).0)),
            collapse_rule_at(ts, p1).1,
        ),
        tok_at(ts, p) == SpecToken::KwRefuse ==> term_at(ts, p) == (
            Ok::<SpecTerm, Seq<char>>(SpecTerm::Refuse(Box::new(i), reason_at(ts, p1).0)),
            reason_at(ts, p1).1,
        ),
        tok_at(ts, p) == SpecToken::KwPop ==> term_at(ts, p) == (
            Ok::<SpecTerm, Seq<char>>(SpecTerm::Pop(Box::new(i))),
            p1,
        ),
{
}

/// `bind` followed by two operands builds the binding of the first to the
/// second, in the order written.
pub proof fn law_parse_bind(ts: Seq<SpecToken>, p: int, a: SpecTerm, p1: int, b: SpecTerm, p2: int)
    requires
        0 <= p,
        tok_at(ts, p) == SpecToken::KwBind,
        atom_at(ts, p + 1) == (Ok::<SpecTerm, Seq<char>>(a), p1),
        p < p1 <= ts.len(),
        atom_at(ts, p1) == (Ok::<SpecTerm, Seq<char>>(b), p2),
    ensures
        term_at(ts, p) == (Ok::<SpecTerm, Seq<char>>(SpecTerm::Bind(Box::new(a), Box::new(b))), p2),
{
}

/// `let x = v in body` binds `x` to `v` in `body`.
pub proof fn law_parse_let(
    ts: Seq<SpecToken>,
    p: int,
    x: Seq<char>,
    v: SpecTerm,
    p3: int,
    body: SpecTerm,
    p4: int,
)
    requires
        0 <= p,
        p + 3 <= ts.len(),
        ts[p] == SpecToken::KwLet,
        ts[p + 1] == SpecToken::Ident(x),
        ts[p + 2] == SpecToken::Eq,
        term_at(ts, p + 3) == (Ok::<SpecTerm, Seq<char>>(v), p3),
        p < p3 < ts.len(),
        ts[p3] == SpecToken::KwIn,
        term_at(ts, p3 + 1) == (Ok::<SpecTerm, Seq<char>>(body), p4),
    ensures
        term_at(ts, p) == (
            Ok::<SpecTerm, Seq<char>>(SpecTerm::Let { name: x, value: Box::new(v), body: Box::new(body) }),
            p4,
        ),
{
}

/// `λx : T -> body` (or `.` for the arrow) abstracts `x` of type `T` over
/// `body`; without an annotation the parameter has the unit type.
pub proof fn law_parse_lambda(
    ts: Seq<SpecToken>,
    p: int,
    x: Seq<char>,
    ty: SpecType,
    p2: int,
    body: SpecTerm,
    p4: int,
)
    requires
        0 <= p,
        p + 3 <= ts.len(),
        ts[p] == SpecToken::Lambda,
        ts[p + 1] == SpecToken::Ident(x),
        ts[p + 2] == SpecToken::Colon,
        type_at(ts, p + 3) == (Ok::<SpecType, Seq<char>>(ty), p2),
        p < p2 < ts.len(),
        ts[p2] == SpecToken::Arrow || ts[p2] == SpecToken::Dot,
        term_at(ts, p2 + 1) == (Ok::<SpecTerm, Seq<char>>(body), p4),
    ensures
        term_at(ts, p) == (
            Ok::<SpecTerm, Seq<char>>(SpecTerm::Lam { param: x, ty, body: Box::new(body) }),
            p4,
        ),
{
}

/// Application associates to the left: each argument that follows is
/// applied to what was built so far; parsing stops at a token that cannot
/// start an argument.
pub proof fn law_parse_application(ts: Seq<SpecToken>, p: int, acc: SpecTerm, arg: SpecTerm, p1: int)
    requires
        0 <= p,
    ensures
        starts_argument(tok_at(ts, p)) && atom_at(ts, p) == (Ok::<SpecTerm, Seq<char>>(arg), p1) && p
            < p1 <= ts.len() ==> app_rest(ts, p, acc) == app_rest(
            ts,
            p1,
            SpecTerm::App(Box::new(acc), Box::new(arg)),
        ),
        !starts_argument(tok_at(ts, p)) ==> app_rest(ts, p, acc) == (Ok::<SpecTerm, Seq<char>>(acc), p),
{
}

/// Atoms: a name is a variable, `Type` the universe at level zero, a number
/// the universe at that level, `Unit` the variable `unit`.
pub proof fn law_parse_atoms(ts: Seq<SpecToken>, p: int, x: Seq<char>, n: u32)
    requires
        0 <= p < ts.len(),
    ensures
        ts[p] == SpecToken::Ident(x) ==> atom_at(ts, p) == (Ok::<SpecTerm, Seq<char>>(SpecTerm::Var(x)), p + 1),
        ts[p] == SpecToken::KwType ==> atom_at(ts, p) == (Ok::<SpecTerm, Seq<char>>(SpecTerm::Universe(0)), p + 1),
        ts[p] == SpecToken::Number(n) ==> atom_at(ts, p) == (Ok::<SpecTerm, Seq<char>>(SpecTerm::Universe(n)), p + 1),
        ts[p] == SpecToken::KwUnit ==> atom_at(ts, p) == (Ok::<SpecTerm, Seq<char>>(SpecTerm::Var("unit"@)), p + 1),
{
}

/// Types: `Unit`, `Never`, `Type n`, and `a -> b`, a function type from the
/// left side to the right side.
pub proof fn law_parse_types(ts: Seq<SpecToken>, p: int, x: Seq<char>, n: u32, rhs: SpecType, p2: int)
    requires
        0 <= p < ts.len(),
    ensures
        ts[p] == SpecToken::KwUnit ==> type_at(ts, p) == (Ok::<SpecType, Seq<char>>(SpecType::Unit), p + 1),
        ts[p] == SpecToken::KwNever ==> type_at(ts, p) == (Ok::<SpecType, Seq<char>>(SpecType::Never), p + 1),
        ts[p] == SpecToken::KwType && tok_at(ts, p + 1) == SpecToken::Number(n) ==> type_at(ts, p) == (
            Ok::<SpecType, Seq<char>>(SpecType::Universe(n)),
            p + 2,
        ),
        ts[p] == SpecToken::Ident(x) && tok_at(ts, p + 1) == SpecToken::Arrow && type_at(ts, p + 2) == (
            Ok::<SpecType, Seq<char>>(rhs),
            p2,
        ) ==> type_at(ts, p) == (
            Ok::<SpecType, Seq<char>>(
                SpecType::Pi { param: "_"@, param_ty: Box::new(SpecType::Var(x)), body_ty: Box::new(rhs) },
            ),
            p2,
        ),
{
}

/// `seq [ ... ]` builds the sequence of the terms written, in order:
/// the items stop at `]` or at the end, and each item may be followed by `;`.
pub proof fn law_parse_sequence(ts: Seq<SpecToken>, p: int, acc: Seq<SpecTerm>, t: SpecTerm, p1: int)
    requires
        0 <= p,
    ensures
        tok_at(ts, p) == SpecToken::RBracket || tok_at(ts, p) == SpecToken::Eof ==> items_at(ts, p, acc)
            == (Ok::<Seq<SpecTerm>, Seq<char>>(acc), p),
        !(tok_at(ts, p) == SpecToken::RBracket || tok_at(ts, p) == SpecToken::Eof) && term_at(ts, p) == (
            Ok::<SpecTerm, Seq<char>>(t),
            p1,
        ) && p < skip_tok(ts, p1, SpecToken::Semi) <= ts.len() ==> items_at(ts, p, acc) == items_at(
            ts,
            skip_tok(ts, p1, SpecToken::Semi),
            acc.push(t),
        ),
        tok_at(ts, p) == SpecToken::KwSeq ==> term_at(ts, p) == (match items_at(
            ts,
            skip_tok(ts, p + 1, SpecToken::LBracket),
            Seq::empty(),
        ) {
            (Ok(items), p2) => (
                Ok::<SpecTerm, Seq<char>>(SpecTerm::Sequence(items)),
                skip_tok(ts, p2, SpecToken::RBracket),
            ),
            (Err(e), p2) => (Err(e), p2),
        }),
{
}

} // verus!
