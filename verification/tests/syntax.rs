use lib::kernel::event::{CollapseRule, RefusalReason};
use lib::syntax::lexer::{Lexer, Token};
use lib::syntax::parser::Parser;
use lib::{parse, Term, Type};

#[test]
fn lexer_reads_arrows_and_lone_marks() {
    let toks = Lexer::new("a->b ~> ~ - λ \\").tokenize();
    assert_eq!(
        toks,
        vec![
            Token::Ident("a".to_string()),
            Token::Arrow,
            Token::Ident("b".to_string()),
            Token::ThinArrow,
            Token::Ident("~".to_string()),
            Token::Ident("-".to_string()),
            Token::Lambda,
            Token::Lambda,
            Token::Eof,
        ]
    );
}

#[test]
fn lexer_skips_comments_whitespace_and_unknown_characters() {
    let toks = Lexer::new("  -- a comment\n\t pop # x -- trailing").tokenize();
    assert_eq!(toks, vec![Token::KwPop, Token::Ident("x".to_string()), Token::Eof]);
}

#[test]
fn lexer_keywords_and_identifiers() {
    let toks = Lexer::new("let in seq Type Admissible last_write proj explicit violation lets _x1 héllo").tokenize();
    assert_eq!(
        toks,
        vec![
            Token::KwLet,
            Token::KwIn,
            Token::KwSeq,
            Token::KwType,
            Token::KwAdmissible,
            Token::KwLastWrite,
            Token::KwProj,
            Token::KwExplicit,
            Token::KwViolation,
            Token::Ident("lets".to_string()),
            Token::Ident("_x1".to_string()),
            Token::Ident("héllo".to_string()),
            Token::Eof,
        ]
    );
}

#[test]
fn lexer_numbers_and_overflow() {
    let toks = Lexer::new("42 4294967295 4294967296 007").tokenize();
    assert_eq!(
        toks,
        vec![Token::Number(42), Token::Number(4294967295), Token::Number(0), Token::Number(7), Token::Eof]
    );
}

#[test]
fn lexer_empty_input_is_just_eof() {
    assert_eq!(Lexer::new("").tokenize(), vec![Token::Eof]);
    assert_eq!(Lexer::new("   -- only a comment").tokenize(), vec![Token::Eof]);
}

#[test]
fn token_text_matches_debug_form() {
    assert_eq!(Token::Ident("a b\"c".to_string()).to_text(), "Ident(\"a b\\\"c\")");
    assert_eq!(Token::Number(12).to_text(), "Number(12)");
    assert_eq!(Token::RParen.to_text(), "RParen");
    assert_eq!(Token::Eof.to_text(), format!("{:?}", Token::Eof));
}

#[test]
fn parse_refuse_defaults_and_reasons() {
    assert_eq!(
        parse("refuse x").unwrap(),
        Term::refuse(Term::var("x"), RefusalReason::Explicit("unspecified".into()))
    );
    assert_eq!(
        parse("refuse x violation(c)").unwrap(),
        Term::refuse_constraint(Term::var("x"), "c")
    );
    assert_eq!(parse("refuse x explicit(why)").unwrap(), Term::refuse_explicit(Term::var("x"), "why"));
}

#[test]
fn parse_collapse_rules() {
    assert_eq!(
        parse("collapse (pop x) last_write").unwrap(),
        Term::collapse(Term::pop(Term::var("x")), CollapseRule::LastWrite)
    );
    assert_eq!(parse("collapse x id").unwrap(), Term::collapse_id(Term::var("x")));
    assert_eq!(
        parse("collapse x proj(net)").unwrap(),
        Term::collapse(Term::var("x"), CollapseRule::Projection(lib::Symbol::new("net")))
    );
    assert_eq!(
        parse("collapse x mine").unwrap(),
        Term::collapse(Term::var("x"), CollapseRule::Named(lib::Symbol::new("mine")))
    );
}

#[test]
fn parse_lambda_let_seq_and_application() {
    assert_eq!(parse("\\x : Unit -> x").unwrap(), Term::lam("x", Type::Unit, Term::var("x")));
    assert_eq!(parse("λy. y").unwrap(), Term::lam("y", Type::Unit, Term::var("y")));
    assert_eq!(
        parse("let y = a in bind y b").unwrap(),
        Term::let_in("y", Term::var("a"), Term::bind(Term::var("y"), Term::var("b")))
    );
    assert_eq!(
        parse("seq[a; b; c]").unwrap(),
        Term::seq(vec![Term::var("a"), Term::var("b"), Term::var("c")])
    );
    assert_eq!(
        parse("f a Unit").unwrap(),
        Term::app(Term::app(Term::var("f"), Term::var("a")), Term::var("unit"))
    );
    assert_eq!(parse("(x : Type 3)").unwrap(), Term::ann(Term::var("x"), Type::Universe(3)));
    assert_eq!(parse("7").unwrap(), Term::Universe(7));
}

#[test]
fn parse_function_types() {
    let mut p = Parser::new(Lexer::new("A -> (B -> Never)").tokenize());
    let t = p.parse_type().unwrap();
    assert_eq!(t.to_text(), "(A → (B → Never))");
    let mut q = Parser::new(Lexer::new("Admissible(Type 2)").tokenize());
    assert_eq!(q.parse_type().unwrap(), Type::Admissible(Box::new(Type::Universe(2))));
}

#[test]
fn parse_errors_name_the_offending_token() {
    assert_eq!(parse(")").unwrap_err(), "unexpected token in atom: RParen");
    assert_eq!(parse("\\ (").unwrap_err(), "expected identifier, got LParen");
    assert_eq!(parse("(x : ->)").unwrap_err(), "unexpected token in type: Arrow");
    assert_eq!(parse("").unwrap_err(), "unexpected token in atom: Eof");
}

#[test]
fn parser_position_continues_after_a_term() {
    let mut p = Parser::new(Lexer::new("a b ) c").tokenize());
    assert_eq!(p.parse_term().unwrap(), Term::app(Term::var("a"), Term::var("b")));
    assert!(p.parse_term().is_err());
}

#[test]
fn lexer_separates_at_every_white_space_character() {
    let mut count = 0;
    for n in 0u32..=0x10ffff {
        if let Some(c) = char::from_u32(n) {
            if c.is_whitespace() {
                count += 1;
                let text = format!("a{}b", c);
                let toks = Lexer::new(&text).tokenize();
                assert_eq!(toks, vec![Token::Ident("a".into()), Token::Ident("b".into()), Token::Eof]);
            }
        }
    }
    assert_eq!(count, 25);
}
