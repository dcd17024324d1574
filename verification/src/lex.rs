//! Lexical analysis: turns the source text into the token sequence, or fails
//! on an integer literal that does not fit the 32-bit signed integer type.
//!
//! The lexer takes one character at a time, looking ahead one further
//! character to pick the longer of a plain and a compound operator form.
//! Identifiers are maximal runs of letters, digits and underscores starting
//! with a letter; letters are deliberately the ASCII ranges, so that the
//! identifier classes are fully stated in the spec functions below —
//! characters outside them are dropped like any other unrecognized
//! character. A run that matches a keyword becomes that keyword's token.
//! Integer constants are maximal runs of decimal digits. Whitespace and
//! unrecognized characters are dropped without a token. `sp_lex` states
//! the whole of this, and `lex` is proved to return exactly what `sp_lex`
//! says.

use vstd::prelude::*;
use vstd::string::*;
use crate::token::{Keyword, Operator, Punctuator, Token};

verus! {

/// Lexing fails only on an integer literal too large for the integer type.
#[derive(Debug, Clone, Copy, PartialEq, Eq, Structural)]
pub enum LexError {
    NumericOverflow,
}

/// The mathematical shape of a token: identifier text as a sequence of
/// characters, the constant as an unbounded integer.
pub enum SpecToken {
    Keyword(Keyword),
    Identifier(Seq<char>),
    Constant(int),
    Operator(Operator),
    Punctuator(Punctuator),
}

impl View for Token {
    type V = SpecToken;

    open spec fn view(&self) -> SpecToken {
        match self {
            Token::Keyword(k) => SpecToken::Keyword(*k),
            Token::Identifier(s) => SpecToken::Identifier(s@),
            Token::Constant(c) => SpecToken::Constant(*c as int),
            Token::Operator(op) => SpecToken::Operator(*op),
            Token::Punctuator(p) => SpecToken::Punctuator(*p),
        }
    }
}

/// The views of a sequence of tokens.
pub open spec fn tokens_view(ts: Seq<Token>) -> Seq<SpecToken> {
    ts.map_values(|t: Token| t@)
}

/// A decimal digit, `0` through `9`.
pub open spec fn is_digit_char(c: char) -> bool {
    48 <= c as u32 && c as u32 <= 57
}

/// An ASCII letter.
pub open spec fn is_alpha_char(c: char) -> bool {
    (65 <= c as u32 && c as u32 <= 90) || (97 <= c as u32 && c as u32 <= 122)
}

/// A character that may continue an identifier run.
pub open spec fn is_ident_char(c: char) -> bool {
    is_alpha_char(c) || is_digit_char(c) || c == '_'
}

/// End of the identifier run that starts at `i`: the first position at or
/// after `i` holding no identifier character.
pub open spec fn ident_end(s: Seq<char>, i: int) -> int
    decreases s.len() - i,
    when 0 <= i <= s.len()
{
    if i < s.len() && is_ident_char(s[i]) {
        ident_end(s, i + 1)
    } else {
        i
    }
}

/// End of the digit run that starts at `i`.
pub open spec fn num_end(s: Seq<char>, i: int) -> int
    decreases s.len() - i,
    when 0 <= i <= s.len()
{
    if i < s.len() && is_digit_char(s[i]) {
        num_end(s, i + 1)
    } else {
        i
    }
}

/// The value of the decimal digit run `s[i..j)`.
pub open spec fn num_val(s: Seq<char>, i: int, j: int) -> int
    decreases j - i,
    when i <= j
{
    if i >= j {
        0
    } else {
        num_val(s, i, j - 1) * 10 + (s[j - 1] as u32 - 48)
    }
}

/// What one step of the lexer does at position `i`: where it stands
/// afterwards, and whether it emitted a token, dropped a character, or
/// failed.
pub enum SpecLexStep {
    Emit(SpecToken),
    Pass,
    Halt,
}

/// The token for a completed identifier run: a keyword where the run matches
/// one, an identifier otherwise.
pub open spec fn kw_or_ident(w: Seq<char>) -> SpecToken {
    if w == "int"@ {
        SpecToken::Keyword(Keyword::Int)
    } else if w == "break"@ {
        SpecToken::Keyword(Keyword::Break)
    } else if w == "else"@ {
        SpecToken::Keyword(Keyword::Else)
    } else if w == "return"@ {
        SpecToken::Keyword(Keyword::Return)
    } else if w == "continue"@ {
        SpecToken::Keyword(Keyword::Continue)
    } else if w == "for"@ {
        SpecToken::Keyword(Keyword::For)
    } else if w == "do"@ {
        SpecToken::Keyword(Keyword::Do)
    } else if w == "if"@ {
        SpecToken::Keyword(Keyword::If)
    } else if w == "while"@ {
        SpecToken::Keyword(Keyword::While)
    } else {
        SpecToken::Identifier(w)
    }
}

/// A single-character operator that pairs with a following `follow` into the
/// compound form, and otherwise stands for the plain form.
pub open spec fn sp_op_pair(
    s: Seq<char>,
    i: int,
    follow: char,
    compound: Operator,
    plain: Operator,
) -> (int, SpecLexStep) {
    if i + 1 < s.len() && s[i + 1] == follow {
        (i + 2, SpecLexStep::Emit(SpecToken::Operator(compound)))
    } else {
        (i + 1, SpecLexStep::Emit(SpecToken::Operator(plain)))
    }
}

/// One step of lexing at position `i` of `s`: the position after the step
/// and what the step produced.
pub open spec fn sp_step(s: Seq<char>, i: int) -> (int, SpecLexStep)
    recommends
        0 <= i < s.len(),
{
    let c = s[i];
    if c == '(' {
        (i + 1, SpecLexStep::Emit(SpecToken::Punctuator(Punctuator::OpenParen)))
    } else if c == ')' {
        (i + 1, SpecLexStep::Emit(SpecToken::Punctuator(Punctuator::CloseParen)))
    } else if c == '{' {
        (i + 1, SpecLexStep::Emit(SpecToken::Punctuator(Punctuator::OpenBrace)))
    } else if c == '}' {
        (i + 1, SpecLexStep::Emit(SpecToken::Punctuator(Punctuator::CloseBrace)))
    } else if c == ',' {
        (i + 1, SpecLexStep::Emit(SpecToken::Punctuator(Punctuator::Comma)))
    } else if c == ':' {
        (i + 1, SpecLexStep::Emit(SpecToken::Punctuator(Punctuator::Colon)))
    } else if c == ';' {
        (i + 1, SpecLexStep::Emit(SpecToken::Punctuator(Punctuator::Semicolon)))
    } else if c == '?' {
        (i + 1, SpecLexStep::Emit(SpecToken::Punctuator(Punctuator::QuestionMark)))
    } else if c == '^' {
        (i + 1, SpecLexStep::Emit(SpecToken::Operator(Operator::BitwiseXor)))
    } else if c == '+' {
        sp_op_pair(s, i, '=', Operator::AssignPlus, Operator::Plus)
    } else if c == '-' {
        sp_op_pair(s, i, '=', Operator::AssignMinus, Operator::Minus)
    } else if c == '*' {
        sp_op_pair(s, i, '=', Operator::AssignMult, Operator::Multiplication)
    } else if c == '/' {
        sp_op_pair(s, i, '=', Operator::AssignDiv, Operator::Division)
    } else if c == '%' {
        sp_op_pair(s, i, '=', Operator::AssignMod, Operator::Modulo)
    } else if c == '!' {
        sp_op_pair(s, i, '=', Operator::NotEqual, Operator::LogicalNegation)
    } else if c == '&' {
        sp_op_pair(s, i, '&', Operator::LogicalAnd, Operator::BitwiseAnd)
    } else if c == '|' {
        sp_op_pair(s, i, '|', Operator::LogicalOr, Operator::BitwiseOr)
    } else if c == '=' {
        sp_op_pair(s, i, '=', Operator::Equal, Operator::Assignment)
    } else if c == '<' {
        if i + 1 < s.len() && s[i + 1] == '=' {
            (i + 2, SpecLexStep::Emit(SpecToken::Operator(Operator::LessThanOrEqual)))
        } else if i + 1 < s.len() && s[i + 1] == '<' {
            (i + 2, SpecLexStep::Emit(SpecToken::Operator(Operator::BitwiseShiftLeft)))
        } else {
            (i + 1, SpecLexStep::Emit(SpecToken::Operator(Operator::LessThan)))
        }
    } else if c == '>' {
        if i + 1 < s.len() && s[i + 1] == '=' {
            (i + 2, SpecLexStep::Emit(SpecToken::Operator(Operator::GreaterThanOrEqual)))
        } else if i + 1 < s.len() && s[i + 1] == '>' {
            (i + 2, SpecLexStep::Emit(SpecToken::Operator(Operator::BitwiseShiftRight)))
        } else {
            (i + 1, SpecLexStep::Emit(SpecToken::Operator(Operator::GreaterThan)))
        }
    } else if is_alpha_char(c) {
        let j = ident_end(s, i);
        (j, SpecLexStep::Emit(kw_or_ident(s.subrange(i, j))))
    } else if is_digit_char(c) {
        let j = num_end(s, i);
        if num_val(s, i, j) > i32::MAX {
            (j, SpecLexStep::Halt)
        } else {
            (j, SpecLexStep::Emit(SpecToken::Constant(num_val(s, i, j))))
        }
    } else {
        (i + 1, SpecLexStep::Pass)
    }
}

/// The whole lexing of `s` from position `i` on: the emitted tokens in
/// order, or `None` where a step fails.
pub open spec fn sp_lex(s: Seq<char>, i: int) -> Option<Seq<SpecToken>>
    decreases s.len() - i,
    when 0 <= i <= s.len()
    via sp_lex_decreases
{
    if i >= s.len() {
        Option::Some(Seq::empty())
    } else {
        let (j, k) = sp_step(s, i);
        match k {
            SpecLexStep::Halt => Option::None,
            SpecLexStep::Pass => sp_lex(s, j),
            SpecLexStep::Emit(t) => match sp_lex(s, j) {
                Option::Some(rest) => Option::Some(seq![t] + rest),
                Option::None => Option::None,
            },
        }
    }
}

#[via_fn]
proof fn sp_lex_decreases(s: Seq<char>, i: int) {
    if 0 <= i < s.len() {
        lemma_sp_step_progress(s, i);
    }
}

/// An identifier run ends between its start and the end of the input.
pub proof fn lemma_ident_end_bounds(s: Seq<char>, i: int)
    requires
        0 <= i <= s.len(),
    ensures
        i <= ident_end(s, i) <= s.len(),
    decreases s.len() - i,
{
    if i < s.len() && is_ident_char(s[i]) {
        lemma_ident_end_bounds(s, i + 1);
    }
}

/// A digit run ends between its start and the end of the input.
pub proof fn lemma_num_end_bounds(s: Seq<char>, i: int)
    requires
        0 <= i <= s.len(),
    ensures
        i <= num_end(s, i) <= s.len(),
    decreases s.len() - i,
{
    if i < s.len() && is_digit_char(s[i]) {
        lemma_num_end_bounds(s, i + 1);
    }
}

/// Every character of a digit run is a digit.
pub proof fn lemma_num_run_digits(s: Seq<char>, i: int)
    requires
        0 <= i <= s.len(),
    ensures
        forall|k: int| i <= k < num_end(s, i) ==> is_digit_char(#[trigger] s[k]),
    decreases s.len() - i,
{
    if i < s.len() && is_digit_char(s[i]) {
        lemma_num_run_digits(s, i + 1);
    }
}

/// The value of a digit run is never negative.
pub proof fn lemma_num_val_nonneg(s: Seq<char>, i: int, j: int)
    requires
        0 <= i <= j <= s.len(),
        forall|k: int| i <= k < j ==> is_digit_char(#[trigger] s[k]),
    ensures
        num_val(s, i, j) >= 0,
    decreases j - i,
{
    if i < j {
        lemma_num_val_nonneg(s, i, j - 1);
    }
}

/// Each lexing step moves forward, and never past the end.
pub proof fn lemma_sp_step_progress(s: Seq<char>, i: int)
    requires
        0 <= i < s.len(),
    ensures
        i < sp_step(s, i).0 <= s.len(),
{
    let c = s[i];
    if is_alpha_char(c) && !is_single_or_op_start(c) {
        lemma_ident_end_bounds(s, i + 1);
        assert(ident_end(s, i) == ident_end(s, i + 1));
    } else if is_digit_char(c) && !is_single_or_op_start(c) {
        lemma_num_end_bounds(s, i + 1);
        assert(num_end(s, i) == num_end(s, i + 1));
    }
}

/// The characters the step function treats before the identifier and digit
/// cases.
pub open spec fn is_single_or_op_start(c: char) -> bool {
    c == '(' || c == ')' || c == '{' || c == '}' || c == ',' || c == ':' || c == ';' || c == '?'
        || c == '^'
        || c == '+' || c == '-' || c == '*' || c == '/' || c == '%' || c == '!' || c == '&' || c
        == '|' || c == '=' || c == '<' || c == '>'
}

fn is_digit_char_x(c: char) -> (r: bool)
    ensures
        r == is_digit_char(c),
{
    let u = c as u32;
    48 <= u && u <= 57
}

fn is_alpha_char_x(c: char) -> (r: bool)
    ensures
        r == is_alpha_char(c),
{
    let u = c as u32;
    (65 <= u && u <= 90) || (97 <= u && u <= 122)
}

fn is_ident_char_x(c: char) -> (r: bool)
    ensures
        r == is_ident_char(c),
{
    is_alpha_char_x(c) || is_digit_char_x(c) || c == '_'
}

/// What one executable lexing step produced.
enum StepOut {
    Tok(Token),
    SkipOne,
    Overflow,
}

/// Longest-match choice between a compound operator and its plain form.
fn op_pair(cs: &Vec<char>, i: usize, follow: char, compound: Operator, plain: Operator) -> (r: (
    usize,
    Token,
))
    requires
        i < cs@.len(),
    ensures
        ({
            let (j, k) = sp_op_pair(cs@, i as int, follow, compound, plain);
            r.0 as int == j && k == SpecLexStep::Emit(r.1@)
        }),
{
    let n = cs.len();
    if i + 1 < n && cs[i + 1] == follow {
        (i + 2, Token::Operator(compound))
    } else {
        (i + 1, Token::Operator(plain))
    }
}

/// The token for a completed identifier run.
fn keyword_token(w: &str) -> (t: Token)
    ensures
        t@ == kw_or_ident(w@),
{
    proof {
        reveal_strlit("int");
        reveal_strlit("break");
        reveal_strlit("else");
        reveal_strlit("return");
        reveal_strlit("continue");
        reveal_strlit("for");
        reveal_strlit("do");
        reveal_strlit("if");
        reveal_strlit("while");
    }
    let ws = w.to_owned();
    if ws == String::from_str("int") {
        Token::Keyword(Keyword::Int)
    } else if ws == String::from_str("break") {
        Token::Keyword(Keyword::Break)
    } else if ws == String::from_str("else") {
        Token::Keyword(Keyword::Else)
    } else if ws == String::from_str("return") {
        Token::Keyword(Keyword::Return)
    } else if ws == String::from_str("continue") {
        Token::Keyword(Keyword::Continue)
    } else if ws == String::from_str("for") {
        Token::Keyword(Keyword::For)
    } else if ws == String::from_str("do") {
        Token::Keyword(Keyword::Do)
    } else if ws == String::from_str("if") {
        Token::Keyword(Keyword::If)
    } else if ws == String::from_str("while") {
        Token::Keyword(Keyword::While)
    } else {
        Token::Identifier(ws)
    }
}

/// One executable lexing step, exactly as `sp_step` describes it.
#[verifier::rlimit(50)]
fn lex_step(cs: &Vec<char>, src: &str, i: usize) -> (r: (usize, StepOut))
    requires
        cs@ == src@,
        i < cs@.len(),
    ensures
        ({
            let (j, k) = sp_step(cs@, i as int);
            r.0 as int == j && match r.1 {
                StepOut::Tok(t) => k == SpecLexStep::Emit(t@),
                StepOut::SkipOne => k == SpecLexStep::Pass,
                StepOut::Overflow => k == SpecLexStep::Halt,
            }
        }),
{
    let n = cs.len();
    let c = cs[i];
    if c == '(' {
        (i + 1, StepOut::Tok(Token::Punctuator(Punctuator::OpenParen)))
    } else if c == ')' {
        (i + 1, StepOut::Tok(Token::Punctuator(Punctuator::CloseParen)))
    } else if c == '{' {
        (i + 1, StepOut::Tok(Token::Punctuator(Punctuator::OpenBrace)))
    } else if c == '}' {
        (i + 1, StepOut::Tok(Token::Punctuator(Punctuator::CloseBrace)))
    } else if c == ',' {
        (i + 1, StepOut::Tok(Token::Punctuator(Punctuator::Comma)))
    } else if c == ':' {
        (i + 1, StepOut::Tok(Token::Punctuator(Punctuator::Colon)))
    } else if c == ';' {
        (i + 1, StepOut::Tok(Token::Punctuator(Punctuator::Semicolon)))
    } else if c == '?' {
        (i + 1, StepOut::Tok(Token::Punctuator(Punctuator::QuestionMark)))
    } else if c == '^' {
        (i + 1, StepOut::Tok(Token::Operator(Operator::BitwiseXor)))
    } else if c == '+' {
        let (j, t) = op_pair(cs, i, '=', Operator::AssignPlus, Operator::Plus);
        (j, StepOut::Tok(t))
    } else if c == '-' {
        let (j, t) = op_pair(cs, i, '=', Operator::AssignMinus, Operator::Minus);
        (j, StepOut::Tok(t))
    } else if c == '*' {
        let (j, t) = op_pair(cs, i, '=', Operator::AssignMult, Operator::Multiplication);
        (j, StepOut::Tok(t))
    } else if c == '/' {
        let (j, t) = op_pair(cs, i, '=', Operator::AssignDiv, Operator::Division);
        (j, StepOut::Tok(t))
    } else if c == '%' {
        let (j, t) = op_pair(cs, i, '=', Operator::AssignMod, Operator::Modulo);
        (j, StepOut::Tok(t))
    } else if c == '!' {
        let (j, t) = op_pair(cs, i, '=', Operator::NotEqual, Operator::LogicalNegation);
        (j, StepOut::Tok(t))
    } else if c == '&' {
        let (j, t) = op_pair(cs, i, '&', Operator::LogicalAnd, Operator::BitwiseAnd);
        (j, StepOut::Tok(t))
    } else if c == '|' {
        let (j, t) = op_pair(cs, i, '|', Operator::LogicalOr, Operator::BitwiseOr);
        (j, StepOut::Tok(t))
    } else if c == '=' {
        let (j, t) = op_pair(cs, i, '=', Operator::Equal, Operator::Assignment);
        (j, StepOut::Tok(t))
    } else if c == '<' {
        if i + 1 < n && cs[i + 1] == '=' {
            (i + 2, StepOut::Tok(Token::Operator(Operator::LessThanOrEqual)))
        } else if i + 1 < n && cs[i + 1] == '<' {
            (i + 2, StepOut::Tok(Token::Operator(Operator::BitwiseShiftLeft)))
        } else {
            (i + 1, StepOut::Tok(Token::Operator(Operator::LessThan)))
        }
    } else if c == '>' {
        if i + 1 < n && cs[i + 1] == '=' {
            (i + 2, StepOut::Tok(Token::Operator(Operator::GreaterThanOrEqual)))
        } else if i + 1 < n && cs[i + 1] == '>' {
            (i + 2, StepOut::Tok(Token::Operator(Operator::BitwiseShiftRight)))
        } else {
            (i + 1, StepOut::Tok(Token::Operator(Operator::GreaterThan)))
        }
    } else if is_alpha_char_x(c) {
        let j = scan_ident(cs, i);
        let word = src.substring_char(i, j);
        (j, StepOut::Tok(keyword_token(word)))
    } else if is_digit_char_x(c) {
        let j = scan_num(cs, i);
        proof {
            lemma_num_run_digits(cs@, i as int);
        }
        match run_value(cs, i, j) {
            Option::Some(v) => (j, StepOut::Tok(Token::Constant(v))),
            Option::None => (j, StepOut::Overflow),
        }
    } else {
        (i + 1, StepOut::SkipOne)
    }
}

/// Scans to the end of the identifier run that starts at `i`.
fn scan_ident(cs: &Vec<char>, i: usize) -> (j: usize)
    requires
        i < cs@.len(),
        is_ident_char(cs@[i as int]),
    ensures
        j as int == ident_end(cs@, i as int),
        i < j <= cs@.len(),
{
    let n = cs.len();
    let mut j = i;
    while j < n && is_ident_char_x(cs[j])
        invariant
            i <= j <= n,
            n == cs@.len(),
            ident_end(cs@, i as int) == ident_end(cs@, j as int),
        decreases n - j,
    {
        j = j + 1;
    }
    proof {
        lemma_ident_end_bounds(cs@, i as int);
    }
    j
}

/// Scans to the end of the digit run that starts at `i`.
fn scan_num(cs: &Vec<char>, i: usize) -> (j: usize)
    requires
        i < cs@.len(),
        is_digit_char(cs@[i as int]),
    ensures
        j as int == num_end(cs@, i as int),
        i < j <= cs@.len(),
{
    let n = cs.len();
    let mut j = i;
    while j < n && is_digit_char_x(cs[j])
        invariant
            i <= j <= n,
            n == cs@.len(),
            num_end(cs@, i as int) == num_end(cs@, j as int),
        decreases n - j,
    {
        j = j + 1;
    }
    proof {
        lemma_num_end_bounds(cs@, i as int);
    }
    j
}

/// The value of the digit run `cs[i..j)`, or `None` where it exceeds the
/// 32-bit signed range.
fn run_value(cs: &Vec<char>, i: usize, j: usize) -> (r: Option<i32>)
    requires
        i <= j <= cs@.len(),
        forall|k: int| i <= k < j ==> is_digit_char(#[trigger] cs@[k]),
    ensures
        match r {
            Option::Some(v) => v as int == num_val(cs@, i as int, j as int) && v >= 0,
            Option::None => num_val(cs@, i as int, j as int) > i32::MAX,
        },
{
    let mut val: u64 = 0;
    let mut too_big: bool = false;
    let mut k = i;
    while k < j
        invariant
            i <= k <= j <= cs@.len(),
            forall|t: int| i <= t < j ==> is_digit_char(#[trigger] cs@[t]),
            !too_big ==> val as int == num_val(cs@, i as int, k as int) && val <= i32::MAX as u64,
            too_big ==> num_val(cs@, i as int, k as int) > i32::MAX,
            num_val(cs@, i as int, k as int) >= 0,
        decreases j - k,
    {
        let d = (cs[k] as u32) - 48;
        if !too_big {
            let nv = val * 10 + d as u64;
            if nv > i32::MAX as u64 {
                too_big = true;
            } else {
                val = nv;
            }
        }
        k = k + 1;
    }
    if too_big {
        Option::None
    } else {
        Option::Some(val as i32)
    }
}

/// Lexical analysis of the whole source text. Returns exactly the token
/// sequence that `sp_lex` assigns to the text, and fails exactly where
/// `sp_lex` does: on an oversized integer literal.
pub fn lex(input: &str) -> (r: Result<Vec<Token>, LexError>)
    ensures
        match r {
            Result::Ok(toks) => sp_lex(input@, 0) == Option::Some(tokens_view(toks@)),
            Result::Err(e) => sp_lex(input@, 0) is None && e is NumericOverflow,
        },
{
    let n = input.unicode_len();
    let mut cs: Vec<char> = Vec::new();
    let mut p: usize = 0;
    while p < n
        invariant
            n == input@.len(),
            p <= n,
            cs@ == input@.subrange(0, p as int),
        decreases n - p,
    {
        cs.push(input.get_char(p));
        p = p + 1;
    }
    proof {
        assert(cs@ =~= input@);
    }

    let mut toks: Vec<Token> = Vec::new();
    let mut i: usize = 0;
    while i < n
        invariant
            n == cs@.len(),
            cs@ == input@,
            i <= n,
            match sp_lex(cs@, i as int) {
                Option::Some(rest) => sp_lex(cs@, 0) == Option::Some(tokens_view(toks@) + rest),
                Option::None => sp_lex(cs@, 0) is None,
            },
        decreases n - i,
    {
        let (j, out) = lex_step(&cs, input, i);
        proof {
            lemma_sp_step_progress(cs@, i as int);
        }
        match out {
            StepOut::Tok(t) => {
                proof {
                    assert(tokens_view(toks@.push(t)) =~= tokens_view(toks@).push(t@));
                }
                toks.push(t);
            },
            StepOut::SkipOne => {},
            StepOut::Overflow => {
                return Result::Err(LexError::NumericOverflow);
            },
        }
        i = j;
    }
    proof {
        assert(tokens_view(toks@) + Seq::<SpecToken>::empty() =~= tokens_view(toks@));
    }
    Result::Ok(toks)
}

} // verus!
