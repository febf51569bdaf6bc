//! Tokens and the lexer of the surface syntax.

use vstd::prelude::*;
use crate::text::{chars_of, nat_text, push_decimal, same_text};

verus! {

broadcast use vstd::string::group_string_axioms;

/// Whether `c` has Unicode's `Alphabetic` property (spelled out for ASCII
/// by `alphabetic`).
pub uninterp spec fn unicode_alphabetic(c: char) -> bool;

/// Whether `c` is in one of Unicode's general categories for numbers
/// (spelled out for ASCII by `alphanumeric`).
pub uninterp spec fn unicode_numeric(c: char) -> bool;

/// The `Debug` rendering of a string: quoted, with escapes.
pub uninterp spec fn debug_quoted(s: Seq<char>) -> Seq<char>;

/// Whether `c` is an ASCII letter.
pub open spec fn ascii_letter(c: char) -> bool {
    (65 <= (c as u32) <= 90) || (97 <= (c as u32) <= 122)
}

/// White space: the characters with Unicode's `White_Space` property. They
/// are the controls tab, line feed, vertical tab, form feed, carriage return
/// and next line; the space, the no-break space and the Ogham space mark;
/// the spaces from the en quad to the hair space; the line and paragraph
/// separators; the narrow no-break space, the medium mathematical space and
/// the ideographic space.
pub open spec fn white_space(c: char) -> bool {
    let n = c as u32;
    ||| 9 <= n <= 13
    ||| n == 32 || n == 0x85 || n == 0xa0 || n == 0x1680
    ||| 0x2000 <= n <= 0x200a
    ||| n == 0x2028 || n == 0x2029 || n == 0x202f || n == 0x205f || n == 0x3000
}

/// Alphabetic: among ASCII characters, the letters; beyond ASCII, Unicode's
/// `Alphabetic` property.
pub open spec fn alphabetic(c: char) -> bool {
    if (c as u32) < 128 {
        ascii_letter(c)
    } else {
        unicode_alphabetic(c)
    }
}

/// Alphanumeric: alphabetic or numeric; among ASCII characters, the letters
/// and the digits.
pub open spec fn alphanumeric(c: char) -> bool {
    if (c as u32) < 128 {
        ascii_letter(c) || is_digit(c)
    } else {
        unicode_alphabetic(c) || unicode_numeric(c)
    }
}

/// Whether `c` is white space, as `char::is_whitespace` decides.
fn is_whitespace(c: char) -> (r: bool)
    ensures
        r == white_space(c),
{
    let n = c as u32;
    (9 <= n && n <= 13) || n == 32 || n == 0x85 || n == 0xa0 || n == 0x1680 || (0x2000 <= n && n
        <= 0x200a) || n == 0x2028 || n == 0x2029 || n == 0x202f || n == 0x205f || n == 0x3000
}

/// `char::is_alphabetic`: whether `c` has the `Alphabetic` property.
#[verifier::external_body]
fn is_alphabetic(c: char) -> (r: bool)
    ensures
        r == (if (c as u32) < 128 {
            ascii_letter(c)
        } else {
            unicode_alphabetic(c)
        }),
        r == alphabetic(c),
{
    c.is_alphabetic()
}

/// `char::is_alphanumeric`: whether `c` is alphabetic or numeric.
#[verifier::external_body]
fn is_alphanumeric(c: char) -> (r: bool)
    ensures
        r == (if (c as u32) < 128 {
            ascii_letter(c) || is_digit(c)
        } else {
            unicode_alphabetic(c) || unicode_numeric(c)
        }),
        r == alphanumeric(c),
{
    c.is_alphanumeric()
}

/// `<str as Debug>::fmt`, through `format!`: the quoted, escaped rendering of `s`.
#[verifier::external_body]
fn quoted(s: &str) -> (r: String)
    ensures
        r@ == debug_quoted(s@),
{
    format!("{:?}", s)
}

/// `String::push`: appends `c` to `s`.
#[verifier::external_body]
pub(crate) fn push_char(s: &mut String, c: char)
    ensures
        final(s)@ == old(s)@.push(c),
{
    s.push(c)
}

/// The mathematical model of a token.
pub enum SpecToken {
    Ident(Seq<char>),
    Number(u32),
    Lambda,
    Arrow,
    ThinArrow,
    Dot,
    Colon,
    LParen,
    RParen,
    LBracket,
    RBracket,
    Semi,
    Eq,
    KwLet,
    KwIn,
    KwPop,
    KwRefuse,
    KwCollapse,
    KwBind,
    KwSeq,
    KwType,
    KwPi,
    KwAdmissible,
    KwProcess,
    KwUnit,
    KwNever,
    KwLastWrite,
    KwAccumulate,
    KwProj,
    KwViolation,
    KwExplicit,
    Eof,
}

/// Tokens of the surface syntax.
#[derive(Debug, PartialEq, Eq)]
pub enum Token {
    Ident(String),
    Number(u32),
    Lambda,
    Arrow,
    ThinArrow,
    Dot,
    Colon,
    LParen,
    RParen,
    LBracket,
    RBracket,
    Semi,
    Eq,
    KwLet,
    KwIn,
    KwPop,
    KwRefuse,
    KwCollapse,
    KwBind,
    KwSeq,
    KwType,
    KwPi,
    KwAdmissible,
    KwProcess,
    KwUnit,
    KwNever,
    // Collapse rule keywords
    KwLastWrite,
    KwAccumulate,
    KwProj,
    // Refusal reason keywords
    KwViolation,
    KwExplicit,
    Eof,
}

impl View for Token {
    type V = SpecToken;

    open spec fn view(&self) -> SpecToken {
        match self {
            Token::Ident(s) => SpecToken::Ident(s@),
            Token::Number(n) => SpecToken::Number(*n),
            Token::Lambda => SpecToken::Lambda,
            Token::Arrow => SpecToken::Arrow,
            Token::ThinArrow => SpecToken::ThinArrow,
            Token::Dot => SpecToken::Dot,
            Token::Colon => SpecToken::Colon,
            Token::LParen => SpecToken::LParen,
            Token::RParen => SpecToken::RParen,
            Token::LBracket => SpecToken::LBracket,
            Token::RBracket => SpecToken::RBracket,
            Token::Semi => SpecToken::Semi,
            Token::Eq => SpecToken::Eq,
            Token::KwLet => SpecToken::KwLet,
            Token::KwIn => SpecToken::KwIn,
            Token::KwPop => SpecToken::KwPop,
            Token::KwRefuse => SpecToken::KwRefuse,
            Token::KwCollapse => SpecToken::KwCollapse,
            Token::KwBind => SpecToken::KwBind,
            Token::KwSeq => SpecToken::KwSeq,
            Token::KwType => SpecToken::KwType,
            Token::KwPi => SpecToken::KwPi,
            Token::KwAdmissible => SpecToken::KwAdmissible,
            Token::KwProcess => SpecToken::KwProcess,
            Token::KwUnit => SpecToken::KwUnit,
            Token::KwNever => SpecToken::KwNever,
            Token::KwLastWrite => SpecToken::KwLastWrite,
            Token::KwAccumulate => SpecToken::KwAccumulate,
            Token::KwProj => SpecToken::KwProj,
            Token::KwViolation => SpecToken::KwViolation,
            Token::KwExplicit => SpecToken::KwExplicit,
            Token::Eof => SpecToken::Eof,
        }
    }
}

impl Clone for Token {
    fn clone(&self) -> (r: Self)
        ensures
            r@ == self@,
    {
        match self {
            Token::Ident(s) => Token::Ident(s.clone()),
            Token::Number(n) => Token::Number(*n),
            Token::Lambda => Token::Lambda,
            Token::Arrow => Token::Arrow,
            Token::ThinArrow => Token::ThinArrow,
            Token::Dot => Token::Dot,
            Token::Colon => Token::Colon,
            Token::LParen => Token::LParen,
            Token::RParen => Token::RParen,
            Token::LBracket => Token::LBracket,
            Token::RBracket => Token::RBracket,
            Token::Semi => Token::Semi,
            Token::Eq => Token::Eq,
            Token::KwLet => Token::KwLet,
            Token::KwIn => Token::KwIn,
            Token::KwPop => Token::KwPop,
            Token::KwRefuse => Token::KwRefuse,
            Token::KwCollapse => Token::KwCollapse,
            Token::KwBind => Token::KwBind,
            Token::KwSeq => Token::KwSeq,
            Token::KwType => Token::KwType,
            Token::KwPi => Token::KwPi,
            Token::KwAdmissible => Token::KwAdmissible,
            Token::KwProcess => Token::KwProcess,
            Token::KwUnit => Token::KwUnit,
            Token::KwNever => Token::KwNever,
            Token::KwLastWrite => Token::KwLastWrite,
            Token::KwAccumulate => Token::KwAccumulate,
            Token::KwProj => Token::KwProj,
            Token::KwViolation => Token::KwViolation,
            Token::KwExplicit => Token::KwExplicit,
            Token::Eof => Token::Eof,
        }
    }
}

/// The models of a sequence of tokens.
pub open spec fn tokens_model(ts: Seq<Token>) -> Seq<SpecToken> {
    ts.map_values(|t: Token| t@)
}

/// How a token is shown in error messages (its `Debug` form).
pub open spec fn token_text(t: SpecToken) -> Seq<char> {
    match t {
        SpecToken::Ident(s) => "Ident("@ + debug_quoted(s) + ")"@,
        SpecToken::Number(n) => "Number("@ + nat_text(n as nat) + ")"@,
        SpecToken::Lambda => "Lambda"@,
        SpecToken::Arrow => "Arrow"@,
        SpecToken::ThinArrow => "ThinArrow"@,
        SpecToken::Dot => "Dot"@,
        SpecToken::Colon => "Colon"@,
        SpecToken::LParen => "LParen"@,
        SpecToken::RParen => "RParen"@,
        SpecToken::LBracket => "LBracket"@,
        SpecToken::RBracket => "RBracket"@,
        SpecToken::Semi => "Semi"@,
        SpecToken::Eq => "Eq"@,
        SpecToken::KwLet => "KwLet"@,
        SpecToken::KwIn => "KwIn"@,
        SpecToken::KwPop => "KwPop"@,
        SpecToken::KwRefuse => "KwRefuse"@,
        SpecToken::KwCollapse => "KwCollapse"@,
        SpecToken::KwBind => "KwBind"@,
        SpecToken::KwSeq => "KwSeq"@,
        SpecToken::KwType => "KwType"@,
        SpecToken::KwPi => "KwPi"@,
        SpecToken::KwAdmissible => "KwAdmissible"@,
        SpecToken::KwProcess => "KwProcess"@,
        SpecToken::KwUnit => "KwUnit"@,
        SpecToken::KwNever => "KwNever"@,
        SpecToken::KwLastWrite => "KwLastWrite"@,
        SpecToken::KwAccumulate => "KwAccumulate"@,
        SpecToken::KwProj => "KwProj"@,
        SpecToken::KwViolation => "KwViolation"@,
        SpecToken::KwExplicit => "KwExplicit"@,
        SpecToken::Eof => "Eof"@,
    }
}

impl Token {
    /// The token as shown in error messages.
    pub fn to_text(&self) -> (r: String)
        ensures
            r@ == token_text(self@),
    {
        let mut out = String::new();
        match self {
            Token::Ident(s) => {
                out.append("Ident(");
                let q = quoted(s.as_str());
                out.append(q.as_str());
                out.append(")");
            },
            Token::Number(n) => {
                out.append("Number(");
                push_decimal(&mut out, *n as u128);
                out.append(")");
            },
            Token::Lambda => out.append("Lambda"),
            Token::Arrow => out.append("Arrow"),
            Token::ThinArrow => out.append("ThinArrow"),
            Token::Dot => out.append("Dot"),
            Token::Colon => out.append("Colon"),
            Token::LParen => out.append("LParen"),
            Token::RParen => out.append("RParen"),
            Token::LBracket => out.append("LBracket"),
            Token::RBracket => out.append("RBracket"),
            Token::Semi => out.append("Semi"),
            Token::Eq => out.append("Eq"),
            Token::KwLet => out.append("KwLet"),
            Token::KwIn => out.append("KwIn"),
            Token::KwPop => out.append("KwPop"),
            Token::KwRefuse => out.append("KwRefuse"),
            Token::KwCollapse => out.append("KwCollapse"),
            Token::KwBind => out.append("KwBind"),
            Token::KwSeq => out.append("KwSeq"),
            Token::KwType => out.append("KwType"),
            Token::KwPi => out.append("KwPi"),
            Token::KwAdmissible => out.append("KwAdmissible"),
            Token::KwProcess => out.append("KwProcess"),
            Token::KwUnit => out.append("KwUnit"),
            Token::KwNever => out.append("KwNever"),
            Token::KwLastWrite => out.append("KwLastWrite"),
            Token::KwAccumulate => out.append("KwAccumulate"),
            Token::KwProj => out.append("KwProj"),
            Token::KwViolation => out.append("KwViolation"),
            Token::KwExplicit => out.append("KwExplicit"),
            Token::Eof => out.append("Eof"),
        }
        assert(out@ =~= token_text(self@));
        out
    }
}

/// Whether `c` is an ASCII decimal digit.
pub open spec fn is_digit(c: char) -> bool {
    48 <= (c as u32) <= 57
}

/// The value of a string of decimal digits.
pub open spec fn decimal_value(d: Seq<char>) -> nat
    decreases d.len(),
{
    if d.len() == 0 {
        0
    } else {
        decimal_value(d.drop_last()) * 10 + ((d.last() as u32) - 48) as nat
    }
}

/// The number a run of digits denotes as a token: its value, or zero when
/// the value does not fit in 32 bits.
pub open spec fn number_value(d: Seq<char>) -> u32 {
    if decimal_value(d) <= u32::MAX {
        decimal_value(d) as u32
    } else {
        0
    }
}

/// The end of a line comment whose text starts at `p`: the next newline,
/// or the end of the input.
pub open spec fn comment_end(s: Seq<char>, p: int) -> int
    decreases s.len() - p,
{
    if 0 <= p < s.len() && s[p] != '\n' {
        comment_end(s, p + 1)
    } else {
        p
    }
}

/// `comment_end` stays within the input and does not go back.
pub proof fn lemma_comment_end(s: Seq<char>, p: int)
    requires
        0 <= p <= s.len(),
    ensures
        p <= comment_end(s, p) <= s.len(),
    decreases s.len() - p,
{
    if p < s.len() && s[p] != '\n' {
        lemma_comment_end(s, p + 1);
    }
}

/// The position after the white space and `--` comments that start at `p`.
pub open spec fn space_end(s: Seq<char>, p: int) -> int
    decreases s.len() - p,
{
    if 0 <= p < s.len() && white_space(s[p]) {
        space_end(s, p + 1)
    } else if 0 <= p && p + 2 <= s.len() && s[p] == '-' && s[p + 1] == '-' {
        proof {
            lemma_comment_end(s, p + 2);
        }
        space_end(s, comment_end(s, p + 2))
    } else {
        p
    }
}

/// `space_end` stays within the input and does not go back.
pub proof fn lemma_space_end(s: Seq<char>, p: int)
    requires
        0 <= p <= s.len(),
    ensures
        p <= space_end(s, p) <= s.len(),
    decreases s.len() - p,
{
    if p < s.len() && white_space(s[p]) {
        lemma_space_end(s, p + 1);
    } else if p + 2 <= s.len() && s[p] == '-' && s[p + 1] == '-' {
        lemma_comment_end(s, p + 2);
        lemma_space_end(s, comment_end(s, p + 2));
    }
}

/// The end of the run of characters satisfying a word's continuation
/// (alphanumeric or `_`) that starts at `p`.
pub open spec fn word_end(s: Seq<char>, p: int) -> int
    decreases s.len() - p,
{
    if 0 <= p < s.len() && (alphanumeric(s[p]) || s[p] == '_') {
        word_end(s, p + 1)
    } else {
        p
    }
}

/// The end of the run of digits that starts at `p`.
pub open spec fn digits_end(s: Seq<char>, p: int) -> int
    decreases s.len() - p,
{
    if 0 <= p < s.len() && is_digit(s[p]) {
        digits_end(s, p + 1)
    } else {
        p
    }
}

/// `word_end` and `digits_end` stay within the input and do not go back.
pub proof fn lemma_run_ends(s: Seq<char>, p: int)
    requires
        0 <= p <= s.len(),
    ensures
        p <= word_end(s, p) <= s.len(),
        p <= digits_end(s, p) <= s.len(),
    decreases s.len() - p,
{
    if p < s.len() {
        lemma_run_ends(s, p + 1);
    }
}

/// The token a word denotes: a keyword, or an identifier.
pub open spec fn word_token(w: Seq<char>) -> SpecToken {
    if w == "let"@ {
        SpecToken::KwLet
    } else if w == "in"@ {
        SpecToken::KwIn
    } else if w == "pop"@ {
        SpecToken::KwPop
    } else if w == "refuse"@ {
        SpecToken::KwRefuse
    } else if w == "collapse"@ {
        SpecToken::KwCollapse
    } else if w == "bind"@ {
        SpecToken::KwBind
    } else if w == "seq"@ {
        SpecToken::KwSeq
    } else if w == "Type"@ {
        SpecToken::KwType
    } else if w == "Pi"@ {
        SpecToken::KwPi
    } else if w == "Admissible"@ {
        SpecToken::KwAdmissible
    } else if w == "Process"@ {
        SpecToken::KwProcess
    } else if w == "Unit"@ {
        SpecToken::KwUnit
    } else if w == "Never"@ {
        SpecToken::KwNever
    } else if w == "last_write"@ {
        SpecToken::KwLastWrite
    } else if w == "accumulate"@ {
        SpecToken::KwAccumulate
    } else if w == "proj"@ {
        SpecToken::KwProj
    } else if w == "violation"@ {
        SpecToken::KwViolation
    } else if w == "explicit"@ {
        SpecToken::KwExplicit
    } else {
        SpecToken::Ident(w)
    }
}

/// The token that starts at `q` (a character other than white space) and
/// the position after it; `None` for a character that starts no token and
/// is skipped.
pub open spec fn lex_at(s: Seq<char>, q: int) -> (Option<SpecToken>, int) {
    let c = s[q];
    if c == '(' {
        (Some(SpecToken::LParen), q + 1)
    } else if c == ')' {
        (Some(SpecToken::RParen), q + 1)
    } else if c == '[' {
        (Some(SpecToken::LBracket), q + 1)
    } else if c == ']' {
        (Some(SpecToken::RBracket), q + 1)
    } else if c == '.' {
        (Some(SpecToken::Dot), q + 1)
    } else if c == ':' {
        (Some(SpecToken::Colon), q + 1)
    } else if c == ';' {
        (Some(SpecToken::Semi), q + 1)
    } else if c == '=' {
        (Some(SpecToken::Eq), q + 1)
    } else if c == 'λ' || c == '\\' {
        (Some(SpecToken::Lambda), q + 1)
    } else if c == '-' {
        if q + 1 < s.len() && s[q + 1] == '>' {
            (Some(SpecToken::Arrow), q + 2)
        } else {
            (Some(SpecToken::Ident("-"@)), q + 1)
        }
    } else if c == '~' {
        if q + 1 < s.len() && s[q + 1] == '>' {
            (Some(SpecToken::ThinArrow), q + 2)
        } else {
            (Some(SpecToken::Ident("~"@)), q + 1)
        }
    } else if is_digit(c) {
        let e = digits_end(s, q + 1);
        (Some(SpecToken::Number(number_value(s.subrange(q, e)))), e)
    } else if alphabetic(c) || c == '_' {
        let e = word_end(s, q + 1);
        (Some(word_token(s.subrange(q, e))), e)
    } else {
        (None, q + 1)
    }
}

/// The tokens of `s` from position `p` on, ending with `Eof`.
pub open spec fn lex_from(s: Seq<char>, p: int) -> Seq<SpecToken>
    decreases s.len() - p,
{
    if 0 <= p <= s.len() {
        let q = space_end(s, p);
        proof {
            lemma_space_end(s, p);
        }
        if q >= s.len() {
            seq![SpecToken::Eof]
        } else {
            proof {
                lemma_run_ends(s, q + 1);
            }
            let (t, r) = lex_at(s, q);
            match t {
                Some(tok) => seq![tok] + lex_from(s, r),
                None => lex_from(s, r),
            }
        }
    } else {
        seq![SpecToken::Eof]
    }
}

/// The tokens of a source text.
pub open spec fn lex(s: Seq<char>) -> Seq<SpecToken> {
    lex_from(s, 0)
}

/// Turns source text into tokens.
pub struct Lexer {
    input: Vec<char>,
    pos: usize,
}

impl Lexer {
    #[verifier::type_invariant]
    spec fn inv(self) -> bool {
        self.pos <= self.input.len()
    }

    /// The text being lexed.
    pub closed spec fn text(self) -> Seq<char> {
        self.input@
    }

    /// The position of the next character to read.
    pub closed spec fn position(self) -> int {
        self.pos as int
    }

    /// A lexer at the start of `src`.
    pub fn new(src: &str) -> (r: Lexer)
        ensures
            r.text() == src@,
            r.position() == 0,
    {
        Lexer { input: chars_of(src), pos: 0 }
    }

    fn skip_ws(&mut self)
        ensures
            final(self).input@ == old(self).input@,
            final(self).pos == space_end(old(self).input@, old(self).pos as int),
    {
        proof {
            use_type_invariant(&*self);
        }
        let ghost s = self.input@;
        let ghost p0 = self.pos as int;
        loop
            invariant
                self.input@ == s,
                self.pos <= s.len(),
                space_end(s, self.pos as int) == space_end(s, p0),
            ensures
                self.input@ == s,
                self.pos == space_end(s, p0),
            decreases s.len() - self.pos,
        {
            let ghost round = self.pos;
            while self.pos < self.input.len() && is_whitespace(self.input[self.pos])
                invariant
                    self.input@ == s,
                    round <= self.pos <= s.len(),
                    space_end(s, self.pos as int) == space_end(s, p0),
                decreases s.len() - self.pos,
            {
                self.pos = self.pos + 1;
            }
            if self.pos < self.input.len() && self.pos + 1 < self.input.len() && self.input[self.pos] == '-' && self.input[self.pos
                + 1] == '-' {
                let ghost start = self.pos as int;
                assert(comment_end(s, start + 1) == comment_end(s, start + 2));
                assert(comment_end(s, start) == comment_end(s, start + 1));
                while self.pos < self.input.len() && self.input[self.pos] != '\n'
                    invariant
                        self.input@ == s,
                        start < s.len(),
                        start <= self.pos <= s.len(),
                        comment_end(s, self.pos as int) == comment_end(s, start),
                    decreases s.len() - self.pos,
                {
                    self.pos = self.pos + 1;
                }
                assert(self.pos > start + 1) by {
                    if self.pos <= start + 1 {
                        assert(comment_end(s, start) == comment_end(s, start + 1));
                    }
                }
            } else {
                break;
            }
        }
    }

    fn lex_number(&mut self) -> (r: u32)
        requires
            old(self).pos < old(self).input.len(),
            is_digit(old(self).input@[old(self).pos as int]),
        ensures
            final(self).input@ == old(self).input@,
            final(self).pos == digits_end(old(self).input@, old(self).pos + 1),
            r == number_value(old(self).input@.subrange(old(self).pos as int, final(self).pos as int)),
    {
        proof {
            use_type_invariant(&*self);
        }
        let ghost s = self.input@;
        let start = self.pos;
        let mut val: u64 = 0;
        let mut over = false;
        assert(digits_end(s, start as int) == digits_end(s, start + 1));
        assert(s.subrange(start as int, start as int) =~= Seq::<char>::empty());
        while self.pos < self.input.len() && (48 <= (self.input[self.pos] as u32) && (self.input[
            self.pos] as u32) <= 57)
            invariant
                self.input@ == s,
                start < s.len(),
                start <= self.pos <= s.len(),
                digits_end(s, start as int) == digits_end(s, self.pos as int),
                over == (decimal_value(s.subrange(start as int, self.pos as int)) > u32::MAX),
                !over ==> val == decimal_value(s.subrange(start as int, self.pos as int)),
            decreases s.len() - self.pos,
        {
            let d = (self.input[self.pos] as u32 - 48) as u64;
            let ghost before = s.subrange(start as int, self.pos as int);
            let ghost after = s.subrange(start as int, self.pos + 1);
            assert(after.drop_last() =~= before);
            assert(decimal_value(after) == decimal_value(before) * 10 + d);
            if !over {
                val = val * 10 + d;
                if val > 4294967295 {
                    over = true;
                }
            }
            self.pos = self.pos + 1;
        }
        if over {
            0
        } else {
            val as u32
        }
    }

    fn lex_word(&mut self) -> (r: Token)
        requires
            old(self).pos < old(self).input.len(),
        ensures
            final(self).input@ == old(self).input@,
            final(self).pos == word_end(old(self).input@, old(self).pos + 1),
            r@ == word_token(old(self).input@.subrange(old(self).pos as int, final(self).pos as int)),
    {
        proof {
            use_type_invariant(&*self);
        }
        let ghost s = self.input@;
        let start = self.pos;
        let mut w = String::new();
        push_char(&mut w, self.input[self.pos]);
        self.pos = self.pos + 1;
        while self.pos < self.input.len() && (is_alphanumeric(self.input[self.pos]) || self.input[self.pos] == '_')
            invariant
                self.input@ == s,
                start < self.pos <= s.len(),
                word_end(s, start + 1) == word_end(s, self.pos as int),
                w@ == s.subrange(start as int, self.pos as int),
            decreases s.len() - self.pos,
        {
            push_char(&mut w, self.input[self.pos]);
            self.pos = self.pos + 1;
            assert(w@ =~= s.subrange(start as int, self.pos as int));
        }
        word_token_of(w)
    }

    fn lex_one(&mut self) -> (r: Option<Token>)
        requires
            old(self).pos < old(self).input.len(),
        ensures
            final(self).input@ == old(self).input@,
            (
                match r {
                    Some(t) => Some(t@),
                    None => None::<SpecToken>,
                },
                final(self).pos as int,
            ) == lex_at(old(self).input@, old(self).pos as int),
    {
        proof {
            use_type_invariant(&*self);
        }
        let c = self.input[self.pos];
        if c == '(' {
            self.pos = self.pos + 1;
            Some(Token::LParen)
        } else if c == ')' {
            self.pos = self.pos + 1;
            Some(Token::RParen)
        } else if c == '[' {
            self.pos = self.pos + 1;
            Some(Token::LBracket)
        } else if c == ']' {
            self.pos = self.pos + 1;
            Some(Token::RBracket)
        } else if c == '.' {
            self.pos = self.pos + 1;
            Some(Token::Dot)
        } else if c == ':' {
            self.pos = self.pos + 1;
            Some(Token::Colon)
        } else if c == ';' {
            self.pos = self.pos + 1;
            Some(Token::Semi)
        } else if c == '=' {
            self.pos = self.pos + 1;
            Some(Token::Eq)
        } else if c == 'λ' || c == '\\' {
            self.pos = self.pos + 1;
            Some(Token::Lambda)
        } else if c == '-' {
            self.pos = self.pos + 1;
            if self.pos < self.input.len() && self.input[self.pos] == '>' {
                self.pos = self.pos + 1;
                Some(Token::Arrow)
            } else {
                Some(Token::Ident(String::from_str("-")))
            }
        } else if c == '~' {
            self.pos = self.pos + 1;
            if self.pos < self.input.len() && self.input[self.pos] == '>' {
                self.pos = self.pos + 1;
                Some(Token::ThinArrow)
            } else {
                Some(Token::Ident(String::from_str("~")))
            }
        } else if 48 <= (c as u32) && (c as u32) <= 57 {
            let n = self.lex_number();
            Some(Token::Number(n))
        } else if is_alphabetic(c) || c == '_' {
            Some(self.lex_word())
        } else {
            self.pos = self.pos + 1;
            None
        }
    }

    /// The tokens from the current position to the end of the text, ending
    /// with `Eof`; the lexer is left at the end.
    pub fn tokenize(&mut self) -> (r: Vec<Token>)
        ensures
            tokens_model(r@) == lex_from(old(self).text(), old(self).position()),
            final(self).text() == old(self).text(),
            final(self).position() == old(self).text().len(),
    {
        proof {
            use_type_invariant(&*self);
        }
        let ghost s = self.input@;
        let ghost p0 = self.pos as int;
        let mut tokens: Vec<Token> = Vec::new();
        assert(tokens_model(tokens@) =~= Seq::<SpecToken>::empty());
        assert(tokens_model(tokens@) + lex_from(s, p0) =~= lex_from(s, p0));
        loop
            invariant_except_break
                tokens_model(tokens@) + lex_from(s, self.pos as int) == lex_from(s, p0),
            invariant
                self.input@ == s,
                self.pos <= s.len(),
            ensures
                self.input@ == s,
                self.pos == s.len(),
                tokens_model(tokens@) == lex_from(s, p0),
            decreases s.len() - self.pos,
        {
            let ghost before = self.pos as int;
            let ghost done = tokens_model(tokens@);
            self.skip_ws();
            proof {
                lemma_space_end(s, before);
            }
            if self.pos >= self.input.len() {
                tokens.push(Token::Eof);
                assert(tokens_model(tokens@) =~= done.push(SpecToken::Eof));
                assert(lex_from(s, before) == seq![SpecToken::Eof]);
                assert(done + seq![SpecToken::Eof] =~= done.push(SpecToken::Eof));
                break;
            }
            proof {
                lemma_run_ends(s, self.pos + 1);
            }
            let ghost q = self.pos as int;
            match self.lex_one() {
                Some(t) => {
                    let ghost tv = t@;
                    tokens.push(t);
                    assert(tokens_model(tokens@) =~= done.push(tv));
                    assert(lex_from(s, before) == seq![tv] + lex_from(s, self.pos as int));
                    assert(done + (seq![tv] + lex_from(s, self.pos as int)) =~= done.push(tv) + lex_from(
                        s,
                        self.pos as int,
                    ));
                },
                None => {
                    assert(lex_from(s, before) == lex_from(s, self.pos as int));
                },
            }
        }
        tokens
    }
}

/// The token a word denotes.
fn word_token_of(w: String) -> (r: Token)
    ensures
        r@ == word_token(w@),
{
    let t = w.as_str();
    if same_text(t, "let") {
        Token::KwLet
    } else if same_text(t, "in") {
        Token::KwIn
    } else if same_text(t, "pop") {
        Token::KwPop
    } else if same_text(t, "refuse") {
        Token::KwRefuse
    } else if same_text(t, "collapse") {
        Token::KwCollapse
    } else if same_text(t, "bind") {
        Token::KwBind
    } else if same_text(t, "seq") {
        Token::KwSeq
    } else if same_text(t, "Type") {
        Token::KwType
    } else if same_text(t, "Pi") {
        Token::KwPi
    } else if same_text(t, "Admissible") {
        Token::KwAdmissible
    } else if same_text(t, "Process") {
        Token::KwProcess
    } else if same_text(t, "Unit") {
        Token::KwUnit
    } else if same_text(t, "Never") {
        Token::KwNever
    } else if same_text(t, "last_write") {
        Token::KwLastWrite
    } else if same_text(t, "accumulate") {
        Token::KwAccumulate
    } else if same_text(t, "proj") {
        Token::KwProj
    } else if same_text(t, "violation") {
        Token::KwViolation
    } else if same_text(t, "explicit") {
        Token::KwExplicit
    } else {
        Token::Ident(w)
    }
}

/// The reserved words, each with the keyword token it denotes.
pub open spec fn reserved_words() -> Seq<(Seq<char>, SpecToken)> {
    seq![
        ("let"@, SpecToken::KwLet),
        ("in"@, SpecToken::KwIn),
        ("pop"@, SpecToken::KwPop),
        ("refuse"@, SpecToken::KwRefuse),
        ("collapse"@, SpecToken::KwCollapse),
        ("bind"@, SpecToken::KwBind),
        ("seq"@, SpecToken::KwSeq),
        ("Type"@, SpecToken::KwType),
        ("Pi"@, SpecToken::KwPi),
        ("Admissible"@, SpecToken::KwAdmissible),
        ("Process"@, SpecToken::KwProcess),
        ("Unit"@, SpecToken::KwUnit),
        ("Never"@, SpecToken::KwNever),
        ("last_write"@, SpecToken::KwLastWrite),
        ("accumulate"@, SpecToken::KwAccumulate),
        ("proj"@, SpecToken::KwProj),
        ("violation"@, SpecToken::KwViolation),
        ("explicit"@, SpecToken::KwExplicit),
    ]
}

/// Whether `c` continues a word: alphanumeric, or `_`.
pub open spec fn word_char(c: char) -> bool {
    alphanumeric(c) || c == '_'
}

proof fn lemma_word_end(s: Seq<char>, a: int, e: int)
    requires
        0 <= a <= e <= s.len(),
        forall|k: int| a <= k < e ==> word_char(#[trigger] s[k]),
        e == s.len() || !word_char(s[e]),
    ensures
        word_end(s, a) == e,
    decreases e - a,
{
    if a < e {
        assert(word_char(s[a]));
        lemma_word_end(s, a + 1, e);
    }
}

/// Each reserved word is made of ASCII letters and `_`, starts with a
/// letter, and denotes its keyword.
proof fn lemma_reserved_words()
    ensures
        forall|i: int|
            0 <= i < reserved_words().len() ==> {
                let w = #[trigger] reserved_words()[i].0;
                &&& w.len() > 0
                &&& ascii_letter(w[0])
                &&& forall|k: int| 0 <= k < w.len() ==> ascii_letter(w[k]) || w[k] == '_'
                &&& word_token(w) == reserved_words()[i].1
            },
{
    reveal_strlit("let");
    reveal_strlit("in");
    reveal_strlit("pop");
    reveal_strlit("refuse");
    reveal_strlit("collapse");
    reveal_strlit("bind");
    reveal_strlit("seq");
    reveal_strlit("Type");
    reveal_strlit("Pi");
    reveal_strlit("Admissible");
    reveal_strlit("Process");
    reveal_strlit("Unit");
    reveal_strlit("Never");
    reveal_strlit("last_write");
    reveal_strlit("accumulate");
    reveal_strlit("proj");
    reveal_strlit("violation");
    reveal_strlit("explicit");
    assert forall|i: int| 0 <= i < reserved_words().len() implies {
        let w = #[trigger] reserved_words()[i].0;
        &&& w.len() > 0
        &&& ascii_letter(w[0])
        &&& forall|k: int| 0 <= k < w.len() ==> ascii_letter(w[k]) || w[k] == '_'
        &&& word_token(w) == reserved_words()[i].1
    } by {
        if i == 0 {
            let w = "let"@;
            assert(reserved_words()[i] == (w, SpecToken::KwLet));
            assert(w.len() == 3);
            assert(word_token(w) == SpecToken::KwLet);
            assert forall|k: int| 0 <= k < w.len() implies ascii_letter(w[k]) || w[k] == '_' by {
                if k == 0 {
                    assert(w[0] == 'l');
                } else if k == 1 {
                    assert(w[1] == 'e');
                } else if k == 2 {
                    assert(w[2] == 't');
                }
            }
        } else if i == 1 {
            let w = "in"@;
            assert(reserved_words()[i] == (w, SpecToken::KwIn));
            assert(w.len() == 2);
            assert(word_token(w) == SpecToken::KwIn);
            assert forall|k: int| 0 <= k < w.len() implies ascii_letter(w[k]) || w[k] == '_' by {
                if k == 0 {
                    assert(w[0] == 'i');
                } else if k == 1 {
                    assert(w[1] == 'n');
                }
            }
        } else if i == 2 {
            let w = "pop"@;
            assert(reserved_words()[i] == (w, SpecToken::KwPop));
            assert(w.len() == 3);
            assert(w != "let"@) by {
                assert("let"@[0] == 'l');
                assert(w[0] == 'p');
            }
            assert(word_token(w) == SpecToken::KwPop);
            assert forall|k: int| 0 <= k < w.len() implies ascii_letter(w[k]) || w[k] == '_' by {
                if k == 0 {
                    assert(w[0] == 'p');
                } else if k == 1 {
                    assert(w[1] == 'o');
                } else if k == 2 {
                    assert(w[2] == 'p');
                }
            }
        } else if i == 3 {
            let w = "refuse"@;
            assert(reserved_words()[i] == (w, SpecToken::KwRefuse));
            assert(w.len() == 6);
            assert(word_token(w) == SpecToken::KwRefuse);
            assert forall|k: int| 0 <= k < w.len() implies ascii_letter(w[k]) || w[k] == '_' by {
                if k == 0 {
                    assert(w[0] == 'r');
                } else if k == 1 {
                    assert(w[1] == 'e');
                } else if k == 2 {
                    assert(w[2] == 'f');
                } else if k == 3 {
                    assert(w[3] == 'u');
                } else if k == 4 {
                    assert(w[4] == 's');
                } else if k == 5 {
                    assert(w[5] == 'e');
                }
            }
        } else if i == 4 {
            let w = "collapse"@;
            assert(reserved_words()[i] == (w, SpecToken::KwCollapse));
            assert(w.len() == 8);
            assert(word_token(w) == SpecToken::KwCollapse);
            assert forall|k: int| 0 <= k < w.len() implies ascii_letter(w[k]) || w[k] == '_' by {
                if k == 0 {
                    assert(w[0] == 'c');
                } else if k == 1 {
                    assert(w[1] == 'o');
                } else if k == 2 {
                    assert(w[2] == 'l');
                } else if k == 3 {
                    assert(w[3] == 'l');
                } else if k == 4 {
                    assert(w[4] == 'a');
                } else if k == 5 {
                    assert(w[5] == 'p');
                } else if k == 6 {
                    assert(w[6] == 's');
                } else if k == 7 {
                    assert(w[7] == 'e');
                }
            }
        } else if i == 5 {
            let w = "bind"@;
            assert(reserved_words()[i] == (w, SpecToken::KwBind));
            assert(w.len() == 4);
            assert(word_token(w) == SpecToken::KwBind);
            assert forall|k: int| 0 <= k < w.len() implies ascii_letter(w[k]) || w[k] == '_' by {
                if k == 0 {
                    assert(w[0] == 'b');
                } else if k == 1 {
                    assert(w[1] == 'i');
                } else if k == 2 {
                    assert(w[2] == 'n');
                } else if k == 3 {
                    assert(w[3] == 'd');
                }
            }
        } else if i == 6 {
            let w = "seq"@;
            assert(reserved_words()[i] == (w, SpecToken::KwSeq));
            assert(w.len() == 3);
            assert(w != "let"@) by {
                assert("let"@[0] == 'l');
                assert(w[0] == 's');
            }
            assert(w != "pop"@) by {
                assert("pop"@[0] == 'p');
                assert(w[0] == 's');
            }
            assert(word_token(w) == SpecToken::KwSeq);
            assert forall|k: int| 0 <= k < w.len() implies ascii_letter(w[k]) || w[k] == '_' by {
                if k == 0 {
                    assert(w[0] == 's');
                } else if k == 1 {
                    assert(w[1] == 'e');
                } else if k == 2 {
                    assert(w[2] == 'q');
                }
            }
        } else if i == 7 {
            let w = "Type"@;
            assert(reserved_words()[i] == (w, SpecToken::KwType));
            assert(w.len() == 4);
            assert(w != "bind"@) by {
                assert("bind"@[0] == 'b');
                assert(w[0] == 'T');
            }
            assert(word_token(w) == SpecToken::KwType);
            assert forall|k: int| 0 <= k < w.len() implies ascii_letter(w[k]) || w[k] == '_' by {
                if k == 0 {
                    assert(w[0] == 'T');
                } else if k == 1 {
                    assert(w[1] == 'y');
                } else if k == 2 {
                    assert(w[2] == 'p');
                } else if k == 3 {
                    assert(w[3] == 'e');
                }
            }
        } else if i == 8 {
            let w = "Pi"@;
            assert(reserved_words()[i] == (w, SpecToken::KwPi));
            assert(w.len() == 2);
            assert(w != "in"@) by {
                assert("in"@[0] == 'i');
                assert(w[0] == 'P');
            }
            assert(word_token(w) == SpecToken::KwPi);
            assert forall|k: int| 0 <= k < w.len() implies ascii_letter(w[k]) || w[k] == '_' by {
                if k == 0 {
                    assert(w[0] == 'P');
                } else if k == 1 {
                    assert(w[1] == 'i');
                }
            }
        } else if i == 9 {
            let w = "Admissible"@;
            assert(reserved_words()[i] == (w, SpecToken::KwAdmissible));
            assert(w.len() == 10);
            assert(word_token(w) == SpecToken::KwAdmissible);
            assert forall|k: int| 0 <= k < w.len() implies ascii_letter(w[k]) || w[k] == '_' by {
                if k == 0 {
                    assert(w[0] == 'A');
                } else if k == 1 {
                    assert(w[1] == 'd');
                } else if k == 2 {
                    assert(w[2] == 'm');
                } else if k == 3 {
                    assert(w[3] == 'i');
                } else if k == 4 {
                    assert(w[4] == 's');
                } else if k == 5 {
                    assert(w[5] == 's');
                } else if k == 6 {
                    assert(w[6] == 'i');
                } else if k == 7 {
                    assert(w[7] == 'b');
                } else if k == 8 {
                    assert(w[8] == 'l');
                } else if k == 9 {
                    assert(w[9] == 'e');
                }
            }
        } else if i == 10 {
            let w = "Process"@;
            assert(reserved_words()[i] == (w, SpecToken::KwProcess));
            assert(w.len() == 7);
            assert(word_token(w) == SpecToken::KwProcess);
            assert forall|k: int| 0 <= k < w.len() implies ascii_letter(w[k]) || w[k] == '_' by {
                if k == 0 {
                    assert(w[0] == 'P');
                } else if k == 1 {
                    assert(w[1] == 'r');
                } else if k == 2 {
                    assert(w[2] == 'o');
                } else if k == 3 {
                    assert(w[3] == 'c');
                } else if k == 4 {
                    assert(w[4] == 'e');
                } else if k == 5 {
                    assert(w[5] == 's');
                } else if k == 6 {
                    assert(w[6] == 's');
                }
            }
        } else if i == 11 {
            let w = "Unit"@;
            assert(reserved_words()[i] == (w, SpecToken::KwUnit));
            assert(w.len() == 4);
            assert(w != "bind"@) by {
                assert("bind"@[0] == 'b');
                assert(w[0] == 'U');
            }
            assert(w != "Type"@) by {
                assert("Type"@[0] == 'T');
                assert(w[0] == 'U');
            }
            assert(word_token(w) == SpecToken::KwUnit);
            assert forall|k: int| 0 <= k < w.len() implies ascii_letter(w[k]) || w[k] == '_' by {
                if k == 0 {
                    assert(w[0] == 'U');
                } else if k == 1 {
                    assert(w[1] == 'n');
                } else if k == 2 {
                    assert(w[2] == 'i');
                } else if k == 3 {
                    assert(w[3] == 't');
                }
            }
        } else if i == 12 {
            let w = "Never"@;
            assert(reserved_words()[i] == (w, SpecToken::KwNever));
            assert(w.len() == 5);
            assert(word_token(w) == SpecToken::KwNever);
            assert forall|k: int| 0 <= k < w.len() implies ascii_letter(w[k]) || w[k] == '_' by {
                if k == 0 {
                    assert(w[0] == 'N');
                } else if k == 1 {
                    assert(w[1] == 'e');
                } else if k == 2 {
                    assert(w[2] == 'v');
                } else if k == 3 {
                    assert(w[3] == 'e');
                } else if k == 4 {
                    assert(w[4] == 'r');
                }
            }
        } else if i == 13 {
            let w = "last_write"@;
            assert(reserved_words()[i] == (w, SpecToken::KwLastWrite));
            assert(w.len() == 10);
            assert(w != "Admissible"@) by {
                assert("Admissible"@[0] == 'A');
                assert(w[0] == 'l');
            }
            assert(word_token(w) == SpecToken::KwLastWrite);
            assert forall|k: int| 0 <= k < w.len() implies ascii_letter(w[k]) || w[k] == '_' by {
                if k == 0 {
                    assert(w[0] == 'l');
                } else if k == 1 {
                    assert(w[1] == 'a');
                } else if k == 2 {
                    assert(w[2] == 's');
                } else if k == 3 {
                    assert(w[3] == 't');
                } else if k == 4 {
                    assert(w[4] == '_');
                } else if k == 5 {
                    assert(w[5] == 'w');
                } else if k == 6 {
                    assert(w[6] == 'r');
                } else if k == 7 {
                    assert(w[7] == 'i');
                } else if k == 8 {
                    assert(w[8] == 't');
                } else if k == 9 {
                    assert(w[9] == 'e');
                }
            }
        } else if i == 14 {
            let w = "accumulate"@;
            assert(reserved_words()[i] == (w, SpecToken::KwAccumulate));
            assert(w.len() == 10);
            assert(w != "Admissible"@) by {
                assert("Admissible"@[0] == 'A');
                assert(w[0] == 'a');
            }
            assert(w != "last_write"@) by {
                assert("last_write"@[0] == 'l');
                assert(w[0] == 'a');
            }
            assert(word_token(w) == SpecToken::KwAccumulate);
            assert forall|k: int| 0 <= k < w.len() implies ascii_letter(w[k]) || w[k] == '_' by {
                if k == 0 {
                    assert(w[0] == 'a');
                } else if k == 1 {
                    assert(w[1] == 'c');
                } else if k == 2 {
                    assert(w[2] == 'c');
                } else if k == 3 {
                    assert(w[3] == 'u');
                } else if k == 4 {
                    assert(w[4] == 'm');
                } else if k == 5 {
                    assert(w[5] == 'u');
                } else if k == 6 {
                    assert(w[6] == 'l');
                } else if k == 7 {
                    assert(w[7] == 'a');
                } else if k == 8 {
                    assert(w[8] == 't');
                } else if k == 9 {
                    assert(w[9] == 'e');
                }
            }
        } else if i == 15 {
            let w = "proj"@;
            assert(reserved_words()[i] == (w, SpecToken::KwProj));
            assert(w.len() == 4);
            assert(w != "bind"@) by {
                assert("bind"@[0] == 'b');
                assert(w[0] == 'p');
            }
            assert(w != "Type"@) by {
                assert("Type"@[0] == 'T');
                assert(w[0] == 'p');
            }
            assert(w != "Unit"@) by {
                assert("Unit"@[0] == 'U');
                assert(w[0] == 'p');
            }
            assert(word_token(w) == SpecToken::KwProj);
            assert forall|k: int| 0 <= k < w.len() implies ascii_letter(w[k]) || w[k] == '_' by {
                if k == 0 {
                    assert(w[0] == 'p');
                } else if k == 1 {
                    assert(w[1] == 'r');
                } else if k == 2 {
                    assert(w[2] == 'o');
                } else if k == 3 {
                    assert(w[3] == 'j');
                }
            }
        } else if i == 16 {
            let w = "violation"@;
            assert(reserved_words()[i] == (w, SpecToken::KwViolation));
            assert(w.len() == 9);
            assert(word_token(w) == SpecToken::KwViolation);
            assert forall|k: int| 0 <= k < w.len() implies ascii_letter(w[k]) || w[k] == '_' by {
                if k == 0 {
                    assert(w[0] == 'v');
                } else if k == 1 {
                    assert(w[1] == 'i');
                } else if k == 2 {
                    assert(w[2] == 'o');
                } else if k == 3 {
                    assert(w[3] == 'l');
                } else if k == 4 {
                    assert(w[4] == 'a');
                } else if k == 5 {
                    assert(w[5] == 't');
                } else if k == 6 {
                    assert(w[6] == 'i');
                } else if k == 7 {
                    assert(w[7] == 'o');
                } else if k == 8 {
                    assert(w[8] == 'n');
                }
            }
        } else if i == 17 {
            let w = "explicit"@;
            assert(reserved_words()[i] == (w, SpecToken::KwExplicit));
            assert(w.len() == 8);
            assert(w != "collapse"@) by {
                assert("collapse"@[0] == 'c');
                assert(w[0] == 'e');
            }
            assert(word_token(w) == SpecToken::KwExplicit);
            assert forall|k: int| 0 <= k < w.len() implies ascii_letter(w[k]) || w[k] == '_' by {
                if k == 0 {
                    assert(w[0] == 'e');
                } else if k == 1 {
                    assert(w[1] == 'x');
                } else if k == 2 {
                    assert(w[2] == 'p');
                } else if k == 3 {
                    assert(w[3] == 'l');
                } else if k == 4 {
                    assert(w[4] == 'i');
                } else if k == 5 {
                    assert(w[5] == 'c');
                } else if k == 6 {
                    assert(w[6] == 'i');
                } else if k == 7 {
                    assert(w[7] == 't');
                }
            }
        }
    }
}

/// A reserved word written where the next token starts, and not continued
/// by a word character, lexes to its keyword token, and lexing goes on
/// right after it.
pub proof fn law_reserved_word_lexes(s: Seq<char>, p: int, i: int)
    requires
        0 <= i < reserved_words().len(),
        0 <= p <= s.len(),
        space_end(s, p) + reserved_words()[i].0.len() <= s.len(),
        s.subrange(space_end(s, p), space_end(s, p) + reserved_words()[i].0.len())
            == reserved_words()[i].0,
        space_end(s, p) + reserved_words()[i].0.len() == s.len() || !word_char(
            s[space_end(s, p) + reserved_words()[i].0.len()],
        ),
    ensures
        lex_from(s, p) == seq![reserved_words()[i].1] + lex_from(
            s,
            space_end(s, p) + reserved_words()[i].0.len(),
        ),
{
    lemma_reserved_words();
    lemma_space_end(s, p);
    let w = reserved_words()[i].0;
    let q = space_end(s, p);
    let e = q + w.len();
    assert forall|k: int| q <= k < e implies word_char(#[trigger] s[k]) by {
        assert(s[k] == w[k - q]);
        assert(ascii_letter(w[k - q]) || w[k - q] == '_');
    }
    assert(s[q] == w[0]);
    lemma_word_end(s, q + 1, e);
    lemma_run_ends(s, q + 1);
    assert(s.subrange(q, e) == w);
    assert(lex_at(s, q) == (Some(reserved_words()[i].1), e));
}

/// Each reserved word written alone lexes to its keyword token followed by
/// the end of input.
pub proof fn law_reserved_word_alone(i: int)
    requires
        0 <= i < reserved_words().len(),
    ensures
        lex(reserved_words()[i].0) == seq![reserved_words()[i].1, SpecToken::Eof],
{
    lemma_reserved_words();
    let w = reserved_words()[i].0;
    assert(space_end(w, 0) == 0) by {
        assert(ascii_letter(w[0]));
    }
    assert(w.subrange(0, w.len() as int) =~= w);
    law_reserved_word_lexes(w, 0, i);
    assert(space_end(w, w.len() as int) == w.len());
    assert(lex_from(w, w.len() as int) == seq![SpecToken::Eof]);
    assert(seq![reserved_words()[i].1] + seq![SpecToken::Eof] =~= seq![reserved_words()[i].1, SpecToken::Eof]);
}

/// A word that is not reserved denotes the identifier of that word.
pub proof fn law_other_words_are_identifiers(w: Seq<char>)
    requires
        forall|i: int| 0 <= i < reserved_words().len() ==> #[trigger] reserved_words()[i].0 != w,
    ensures
        word_token(w) == SpecToken::Ident(w),
{
    let r = reserved_words();
    assert(r[0].0 != w);
    assert(r[1].0 != w);
    assert(r[2].0 != w);
    assert(r[3].0 != w);
    assert(r[4].0 != w);
    assert(r[5].0 != w);
    assert(r[6].0 != w);
    assert(r[7].0 != w);
    assert(r[8].0 != w);
    assert(r[9].0 != w);
    assert(r[10].0 != w);
    assert(r[11].0 != w);
    assert(r[12].0 != w);
    assert(r[13].0 != w);
    assert(r[14].0 != w);
    assert(r[15].0 != w);
    assert(r[16].0 != w);
    assert(r[17].0 != w);
}

/// Marks: each bracket and punctuation character is its own token, `->` is
/// an arrow, `~>` a thin arrow, `λ` and `\` introduce an abstraction, and a
/// run of digits is a number.
pub proof fn law_marks_lex(s: Seq<char>, q: int)
    requires
        0 <= q < s.len(),
    ensures
        s[q] == '(' ==> lex_at(s, q) == (Some(SpecToken::LParen), q + 1),
        s[q] == ')' ==> lex_at(s, q) == (Some(SpecToken::RParen), q + 1),
        s[q] == '[' ==> lex_at(s, q) == (Some(SpecToken::LBracket), q + 1),
        s[q] == ']' ==> lex_at(s, q) == (Some(SpecToken::RBracket), q + 1),
        s[q] == '.' ==> lex_at(s, q) == (Some(SpecToken::Dot), q + 1),
        s[q] == ':' ==> lex_at(s, q) == (Some(SpecToken::Colon), q + 1),
        s[q] == ';' ==> lex_at(s, q) == (Some(SpecToken::Semi), q + 1),
        s[q] == '=' ==> lex_at(s, q) == (Some(SpecToken::Eq), q + 1),
        s[q] == 'λ' || s[q] == '\\' ==> lex_at(s, q) == (Some(SpecToken::Lambda), q + 1),
        s[q] == '-' && q + 1 < s.len() && s[q + 1] == '>' ==> lex_at(s, q) == (Some(SpecToken::Arrow), q + 2),
        s[q] == '~' && q + 1 < s.len() && s[q + 1] == '>' ==> lex_at(s, q) == (
            Some(SpecToken::ThinArrow),
            q + 2,
        ),
        is_digit(s[q]) ==> lex_at(s, q) == (
            Some(SpecToken::Number(number_value(s.subrange(q, digits_end(s, q + 1))))),
            digits_end(s, q + 1),
        ),
{
}

/// White space and `--` comments between tokens are skipped.
pub proof fn law_space_is_skipped(s: Seq<char>, p: int)
    requires
        0 <= p < s.len(),
    ensures
        white_space(s[p]) ==> lex_from(s, p) == lex_from(s, p + 1),
        p + 2 <= s.len() && s[p] == '-' && s[p + 1] == '-' ==> lex_from(s, p) == lex_from(
            s,
            comment_end(s, p + 2),
        ),
{
    lemma_space_end(s, p);
    if white_space(s[p]) {
        lemma_space_end(s, p + 1);
        assert(space_end(s, p) == space_end(s, p + 1));
    } else if p + 2 <= s.len() && s[p] == '-' && s[p + 1] == '-' {
        lemma_comment_end(s, p + 2);
        lemma_space_end(s, comment_end(s, p + 2));
        assert(space_end(s, p) == space_end(s, comment_end(s, p + 2)));
    }
}

} // verus!
