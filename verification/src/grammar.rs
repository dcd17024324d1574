//! The grammar as a functional specification: for every token sequence,
//! exactly which tree the recursive-descent grammar assigns to it — or
//! exactly which parse error it earns. [`sp_parse`] is the whole grammar;
//! the other `sp_` functions are its levels, one per production, each
//! returning the parsed value and the position after it. The parser's
//! contracts state that each of its functions returns precisely what the
//! corresponding function here says, so the executable parser and this
//! specification stand or fall together.
//!
//! The trees here are the mathematical shape of the syntax tree: sequences
//! for vectors, with the same constructors otherwise. The `view_`
//! functions map the executable tree onto that shape.
//!
//! Each specification function guards the position a sub-parse returned
//! before parsing on from it; the guard branches are unreachable — every
//! successful sub-parse moves forward, which the parser's contracts show —
//! and exist so that each function visibly consumes input and terminates.

use vstd::prelude::*;
use crate::token::{Keyword, Operator, Punctuator, Token};
use crate::ast::{Ast, AstNode, Item, Declaration, Statement, Expression};
use crate::parser::{ParseError, tok_is_punct, tok_is_kw, tok_is_op};

verus! {

/// The mathematical shape of an expression.
pub enum SpExpr {
    Constant(i32),
    Variable(String),
    Unary(Operator, Box<SpExpr>),
    Assign(Operator, String, Box<SpExpr>),
    Binary(Operator, Box<SpExpr>, Box<SpExpr>),
    Ternary(Box<SpExpr>, Box<SpExpr>, Box<SpExpr>),
    Call(String, Seq<SpExpr>),
}

/// The mathematical shape of a declaration.
pub struct SpDecl {
    pub name: String,
    pub init: Option<SpExpr>,
}

/// The mathematical shape of a statement.
pub enum SpStmt {
    Expression(Option<SpExpr>),
    Return(SpExpr),
    If(SpExpr, Box<SpStmt>, Option<Box<SpStmt>>),
    Compound(Seq<SpItem>),
    For(Option<SpExpr>, SpExpr, Option<SpExpr>, Box<SpStmt>),
    ForDeclaration(SpDecl, SpExpr, Option<SpExpr>, Box<SpStmt>),
    While(SpExpr, Box<SpStmt>),
    DoWhile(SpExpr, Box<SpStmt>),
    Break,
    Continue,
}

/// The mathematical shape of a block item.
pub enum SpItem {
    Declaration(SpDecl),
    Statement(SpStmt),
}

/// The mathematical shape of a function declaration.
pub struct SpFun {
    pub name: String,
    pub params: Seq<String>,
    pub body: Option<Seq<SpItem>>,
}

/// The shape of an expression tree.
pub open spec fn view_expr(e: Expression) -> SpExpr
    decreases e,
{
    match e {
        Expression::Constant(c) => SpExpr::Constant(c),
        Expression::Variable(s) => SpExpr::Variable(s),
        Expression::UnaryOperators(op, inner) => SpExpr::Unary(op, Box::new(view_expr(*inner))),
        Expression::AssignmentOperators(op, nm, rhs) => SpExpr::Assign(
            op,
            nm,
            Box::new(view_expr(*rhs)),
        ),
        Expression::BinaryOperators(op, lhs, rhs) => SpExpr::Binary(
            op,
            Box::new(view_expr(*lhs)),
            Box::new(view_expr(*rhs)),
        ),
        Expression::TernaryOperators(c, t, f) => SpExpr::Ternary(
            Box::new(view_expr(*c)),
            Box::new(view_expr(*t)),
            Box::new(view_expr(*f)),
        ),
        Expression::FunctionCalls(nm, args) => SpExpr::Call(nm, view_exprs(args@)),
    }
}

/// The shapes of a sequence of expressions.
pub open spec fn view_exprs(es: Seq<Expression>) -> Seq<SpExpr>
    decreases es,
{
    if es.len() == 0 {
        Seq::empty()
    } else {
        seq![view_expr(es[0])] + view_exprs(es.drop_first())
    }
}

/// The shape of an optional expression.
pub open spec fn view_opt_expr(oe: Option<Expression>) -> Option<SpExpr> {
    match oe {
        Option::Some(e) => Option::Some(view_expr(e)),
        Option::None => Option::None,
    }
}

/// The shape of a declaration.
pub open spec fn view_decl(d: Declaration) -> SpDecl {
    match d {
        Declaration::Declaration(nm, init) => SpDecl { name: nm, init: view_opt_expr(init) },
    }
}

/// The shape of a statement.
pub open spec fn view_stmt(s: Statement) -> SpStmt
    decreases s,
{
    match s {
        Statement::Expression(oe) => SpStmt::Expression(view_opt_expr(oe)),
        Statement::Return(e) => SpStmt::Return(view_expr(e)),
        Statement::If(c, t, oe) => SpStmt::If(
            view_expr(c),
            Box::new(view_stmt(*t)),
            match oe {
                Option::Some(e) => Option::Some(Box::new(view_stmt(*e))),
                Option::None => Option::None,
            },
        ),
        Statement::Compound(items) => SpStmt::Compound(view_items(items@)),
        Statement::For(init, cond, post, body) => SpStmt::For(
            view_opt_expr(init),
            view_expr(cond),
            view_opt_expr(post),
            Box::new(view_stmt(*body)),
        ),
        Statement::ForDeclaration(init, cond, post, body) => SpStmt::ForDeclaration(
            view_decl(init),
            view_expr(cond),
            view_opt_expr(post),
            Box::new(view_stmt(*body)),
        ),
        Statement::While(cond, body) => SpStmt::While(view_expr(cond), Box::new(view_stmt(*body))),
        Statement::DoWhile(cond, body) => SpStmt::DoWhile(
            view_expr(cond),
            Box::new(view_stmt(*body)),
        ),
        Statement::Break => SpStmt::Break,
        Statement::Continue => SpStmt::Continue,
    }
}

/// The shape of a block item.
pub open spec fn view_item(it: Item) -> SpItem
    decreases it,
{
    match it {
        Item::Declaration(d) => SpItem::Declaration(view_decl(d)),
        Item::Statement(s) => SpItem::Statement(view_stmt(s)),
    }
}

/// The shapes of a sequence of block items.
pub open spec fn view_items(items: Seq<Item>) -> Seq<SpItem>
    decreases items,
{
    if items.len() == 0 {
        Seq::empty()
    } else {
        seq![view_item(items[0])] + view_items(items.drop_first())
    }
}

/// The shape of a function declaration.
pub open spec fn view_fun(f: AstNode) -> SpFun {
    match f {
        AstNode::AstNode(name, params, body) => SpFun {
            name: name,
            params: params@,
            body: match body {
                Option::Some(items) => Option::Some(view_items(items@)),
                Option::None => Option::None,
            },
        },
    }
}

/// The shapes of a sequence of function declarations.
pub open spec fn view_funs(fs: Seq<AstNode>) -> Seq<SpFun>
    decreases fs,
{
    if fs.len() == 0 {
        Seq::empty()
    } else {
        seq![view_fun(fs[0])] + view_funs(fs.drop_first())
    }
}

/// The shape of a whole program.
pub open spec fn view_prog(p: Ast) -> Seq<SpFun> {
    match p {
        Ast::Ast(fs) => view_funs(fs@),
    }
}

/// A sequence of expressions and its shape have the same length.
pub proof fn lemma_view_exprs_len(es: Seq<Expression>)
    ensures
        view_exprs(es).len() == es.len(),
    decreases es,
{
    if es.len() > 0 {
        lemma_view_exprs_len(es.drop_first());
    }
}

/// The shape of an appended expression sequence.
pub proof fn lemma_view_exprs_push(es: Seq<Expression>, e: Expression)
    ensures
        view_exprs(es.push(e)) =~= view_exprs(es).push(view_expr(e)),
    decreases es,
{
    assert(es.push(e)[0] == if es.len() == 0 { e } else { es[0] });
    if es.len() == 0 {
        assert(es.push(e).drop_first() =~= es);
        assert(view_exprs(es) =~= Seq::<SpExpr>::empty());
    } else {
        assert(es.push(e).drop_first() =~= es.drop_first().push(e));
        lemma_view_exprs_push(es.drop_first(), e);
    }
}

/// The shape of an appended item sequence.
pub proof fn lemma_view_items_push(items: Seq<Item>, it: Item)
    ensures
        view_items(items.push(it)) =~= view_items(items).push(view_item(it)),
    decreases items,
{
    assert(items.push(it)[0] == if items.len() == 0 { it } else { items[0] });
    if items.len() == 0 {
        assert(items.push(it).drop_first() =~= items);
        assert(view_items(items) =~= Seq::<SpItem>::empty());
    } else {
        assert(items.push(it).drop_first() =~= items.drop_first().push(it));
        lemma_view_items_push(items.drop_first(), it);
    }
}

/// The shape of an appended function sequence.
pub proof fn lemma_view_funs_push(fs: Seq<AstNode>, f: AstNode)
    ensures
        view_funs(fs.push(f)) =~= view_funs(fs).push(view_fun(f)),
    decreases fs,
{
    assert(fs.push(f)[0] == if fs.len() == 0 { f } else { fs[0] });
    if fs.len() == 0 {
        assert(fs.push(f).drop_first() =~= fs);
        assert(view_funs(fs) =~= Seq::<SpFun>::empty());
    } else {
        assert(fs.push(f).drop_first() =~= fs.drop_first().push(f));
        lemma_view_funs_push(fs.drop_first(), f);
    }
}

/// The operators that begin an assignment after an identifier.
pub open spec fn assign_op(op: Operator) -> bool {
    op is Assignment || op is AssignPlus || op is AssignMinus || op is AssignMult
        || op is AssignDiv || op is AssignMod
}

/// The operators accepted in unary prefix position.
pub open spec fn unary_op(op: Operator) -> bool {
    op is Minus || op is LogicalNegation
}

/// The operators of the shared bitwise precedence level.
pub open spec fn bitwise_op(op: Operator) -> bool {
    op is BitwiseShiftLeft || op is BitwiseShiftRight || op is BitwiseAnd || op is BitwiseOr
        || op is BitwiseXor
}

/// The operators of the equality level.
pub open spec fn equality_op(op: Operator) -> bool {
    op is Equal || op is NotEqual
}

/// The operators of the relational level.
pub open spec fn relational_op(op: Operator) -> bool {
    op is LessThan || op is LessThanOrEqual || op is GreaterThan || op is GreaterThanOrEqual
}

/// The operators of the additive level.
pub open spec fn additive_op(op: Operator) -> bool {
    op is Plus || op is Minus
}

/// The operators of the multiplicative level.
pub open spec fn multiplicative_op(op: Operator) -> bool {
    op is Multiplication || op is Division || op is Modulo
}

/// The operator standing at `pos`, if any.
pub open spec fn op_at(ts: Seq<Token>, pos: int) -> Option<Operator> {
    if 0 <= pos < ts.len() {
        match ts[pos] {
            Token::Operator(o) => Option::Some(o),
            _ => Option::None,
        }
    } else {
        Option::None
    }
}

/// Consuming one expected punctuator: the position after it, or the error.
pub open spec fn sp_tok_punct(ts: Seq<Token>, pos: int, p: Punctuator) -> Result<int, ParseError> {
    if 0 <= pos < ts.len() {
        match ts[pos] {
            Token::Punctuator(q) => if q == p {
                Result::Ok(pos + 1)
            } else {
                Result::Err(ParseError::UnexpectedToken(pos as usize))
            },
            _ => Result::Err(ParseError::UnexpectedToken(pos as usize)),
        }
    } else {
        Result::Err(ParseError::UnexpectedEnd)
    }
}

/// Consuming one expected keyword: the position after it, or the error.
pub open spec fn sp_tok_kw(ts: Seq<Token>, pos: int, k: Keyword) -> Result<int, ParseError> {
    if 0 <= pos < ts.len() {
        match ts[pos] {
            Token::Keyword(q) => if q == k {
                Result::Ok(pos + 1)
            } else {
                Result::Err(ParseError::UnexpectedToken(pos as usize))
            },
            _ => Result::Err(ParseError::UnexpectedToken(pos as usize)),
        }
    } else {
        Result::Err(ParseError::UnexpectedEnd)
    }
}

/// Consuming one identifier: its name and the position after it, or the
/// error.
pub open spec fn sp_tok_ident(ts: Seq<Token>, pos: int) -> Result<(String, int), ParseError> {
    if 0 <= pos < ts.len() {
        match ts[pos] {
            Token::Identifier(s) => Result::Ok((s, pos + 1)),
            _ => Result::Err(ParseError::UnexpectedToken(pos as usize)),
        }
    } else {
        Result::Err(ParseError::UnexpectedEnd)
    }
}

/// One parameter: the integer type keyword and a name.
pub open spec fn sp_next_parameter(ts: Seq<Token>, pos: int) -> Result<(String, int), ParseError> {
    match sp_tok_kw(ts, pos, Keyword::Int) {
        Result::Ok(p1) => sp_tok_ident(ts, p1),
        Result::Err(er) => Result::Err(er),
    }
}

/// A parameter list after its opening parenthesis, up to and including the
/// closing one.
pub open spec fn sp_function_parameters(ts: Seq<Token>, pos: int) -> Result<
    (Seq<String>, int),
    ParseError,
>
    decreases ts.len() - pos, 1int,
{
    if tok_is_punct(ts, pos, Punctuator::CloseParen) {
        Result::Ok((Seq::empty(), pos + 1))
    } else if !(0 <= pos < ts.len()) {
        Result::Err(ParseError::UnexpectedEnd)
    } else {
        match sp_next_parameter(ts, pos) {
            Result::Ok((p0, np)) => if !(pos < np <= ts.len()) {
                Result::Err(ParseError::UnexpectedEnd)
            } else {
                sp_more_parameters(ts, np, seq![p0])
            },
            Result::Err(er) => Result::Err(er),
        }
    }
}

/// The rest of a parameter list: comma-led parameters until the closing
/// parenthesis.
pub open spec fn sp_more_parameters(ts: Seq<Token>, pos: int, ps: Seq<String>) -> Result<
    (Seq<String>, int),
    ParseError,
>
    decreases ts.len() - pos, 0int,
{
    if tok_is_punct(ts, pos, Punctuator::CloseParen) {
        Result::Ok((ps, pos + 1))
    } else if tok_is_punct(ts, pos, Punctuator::Comma) {
        match sp_next_parameter(ts, pos + 1) {
            Result::Ok((p0, np)) => if !(pos < np <= ts.len()) {
                Result::Err(ParseError::UnexpectedEnd)
            } else {
                sp_more_parameters(ts, np, ps.push(p0))
            },
            Result::Err(er) => Result::Err(er),
        }
    } else if 0 <= pos < ts.len() {
        Result::Err(ParseError::UnexpectedToken(pos as usize))
    } else {
        Result::Err(ParseError::UnexpectedEnd)
    }
}

/// A factor: a parenthesized expression, a unary operator on a factor, a
/// constant, a variable, or a call checked against the signature map.
pub open spec fn sp_factor(ts: Seq<Token>, pos: int, m: Map<Seq<char>, (nat, bool)>) -> Result<
    (SpExpr, int),
    ParseError,
>
    decreases ts.len() - pos, 0int,
{
    if !(0 <= pos < ts.len()) {
        Result::Err(ParseError::UnexpectedEnd)
    } else {
        match ts[pos] {
            Token::Punctuator(p) => if p == Punctuator::OpenParen {
                match sp_expression(ts, pos + 1, m) {
                    Result::Ok((e, np)) => match sp_tok_punct(ts, np, Punctuator::CloseParen) {
                        Result::Ok(np2) => Result::Ok((e, np2)),
                        Result::Err(er) => Result::Err(er),
                    },
                    Result::Err(er) => Result::Err(er),
                }
            } else {
                Result::Err(ParseError::UnexpectedToken(pos as usize))
            },
            Token::Operator(o) => if unary_op(o) {
                match sp_factor(ts, pos + 1, m) {
                    Result::Ok((f, np)) => Result::Ok((SpExpr::Unary(o, Box::new(f)), np)),
                    Result::Err(er) => Result::Err(er),
                }
            } else {
                Result::Err(ParseError::UnexpectedToken(pos as usize))
            },
            Token::Constant(c) => Result::Ok((SpExpr::Constant(c), pos + 1)),
            Token::Identifier(s) => if tok_is_punct(ts, pos + 1, Punctuator::OpenParen) {
                match sp_call_arguments(ts, pos + 2, m) {
                    Result::Ok((args, np)) => if m.dom().contains(s@) {
                        if m[s@].0 == args.len() {
                            Result::Ok((SpExpr::Call(s, args), np))
                        } else {
                            Result::Err(ParseError::WrongArgumentCount(s))
                        }
                    } else {
                        Result::Err(ParseError::UndeclaredFunction(s))
                    },
                    Result::Err(er) => Result::Err(er),
                }
            } else {
                Result::Ok((SpExpr::Variable(s), pos + 1))
            },
            Token::Keyword(_) => Result::Err(ParseError::UnexpectedToken(pos as usize)),
        }
    }
}

/// A call's argument list after its opening parenthesis.
pub open spec fn sp_call_arguments(ts: Seq<Token>, pos: int, m: Map<Seq<char>, (nat, bool)>) -> Result<
    (Seq<SpExpr>, int),
    ParseError,
>
    decreases ts.len() - pos, 11int,
{
    if tok_is_punct(ts, pos, Punctuator::CloseParen) {
        Result::Ok((Seq::empty(), pos + 1))
    } else if !(0 <= pos < ts.len()) {
        Result::Err(ParseError::UnexpectedEnd)
    } else {
        match sp_expression(ts, pos, m) {
            Result::Ok((a, np)) => if !(pos < np <= ts.len()) {
                Result::Err(ParseError::UnexpectedEnd)
            } else {
                sp_more_arguments(ts, np, seq![a], m)
            },
            Result::Err(er) => Result::Err(er),
        }
    }
}

/// The rest of an argument list: comma-led expressions until the closing
/// parenthesis.
pub open spec fn sp_more_arguments(
    ts: Seq<Token>,
    pos: int,
    args: Seq<SpExpr>,
    m: Map<Seq<char>, (nat, bool)>,
) -> Result<(Seq<SpExpr>, int), ParseError>
    decreases ts.len() - pos, 11int,
{
    if tok_is_punct(ts, pos, Punctuator::CloseParen) {
        Result::Ok((args, pos + 1))
    } else if tok_is_punct(ts, pos, Punctuator::Comma) {
        match sp_expression(ts, pos + 1, m) {
            Result::Ok((a, np)) => if !(pos < np <= ts.len()) {
                Result::Err(ParseError::UnexpectedEnd)
            } else {
                sp_more_arguments(ts, np, args.push(a), m)
            },
            Result::Err(er) => Result::Err(er),
        }
    } else if 0 <= pos < ts.len() {
        Result::Err(ParseError::UnexpectedToken(pos as usize))
    } else {
        Result::Err(ParseError::UnexpectedEnd)
    }
}

/// The multiplicative level: a factor and its left-bound continuations.
pub open spec fn sp_term(ts: Seq<Token>, pos: int, m: Map<Seq<char>, (nat, bool)>) -> Result<
    (SpExpr, int),
    ParseError,
>
    decreases ts.len() - pos, 1int,
{
    match sp_factor(ts, pos, m) {
        Result::Ok((e, np)) => if !(pos < np <= ts.len()) {
            Result::Err(ParseError::UnexpectedEnd)
        } else {
            sp_more_term(ts, np, e, m)
        },
        Result::Err(er) => Result::Err(er),
    }
}

/// The multiplicative level's continuation: `* / %` each followed by a
/// factor, binding left-to-right.
pub open spec fn sp_more_term(
    ts: Seq<Token>,
    pos: int,
    e: SpExpr,
    m: Map<Seq<char>, (nat, bool)>,
) -> Result<(SpExpr, int), ParseError>
    decreases ts.len() - pos, 1int,
{
    match op_at(ts, pos) {
        Option::Some(op) => if multiplicative_op(op) {
            match sp_factor(ts, pos + 1, m) {
                Result::Ok((rhs, np)) => if !(pos < np <= ts.len()) {
                    Result::Err(ParseError::UnexpectedEnd)
                } else {
                    sp_more_term(
                        ts,
                        np,
                        SpExpr::Binary(op, Box::new(e), Box::new(rhs)),
                        m,
                    )
                },
                Result::Err(er) => Result::Err(er),
            }
        } else {
            Result::Ok((e, pos))
        },
        Option::None => Result::Ok((e, pos)),
    }
}

/// The additive level: a term and its left-bound continuations.
pub open spec fn sp_additive(ts: Seq<Token>, pos: int, m: Map<Seq<char>, (nat, bool)>) -> Result<
    (SpExpr, int),
    ParseError,
>
    decreases ts.len() - pos, 2int,
{
    match sp_term(ts, pos, m) {
        Result::Ok((e, np)) => if !(pos < np <= ts.len()) {
            Result::Err(ParseError::UnexpectedEnd)
        } else {
            sp_more_additive(ts, np, e, m)
        },
        Result::Err(er) => Result::Err(er),
    }
}

/// The additive level's continuation: `+ -` each followed by a term,
/// binding left-to-right.
pub open spec fn sp_more_additive(
    ts: Seq<Token>,
    pos: int,
    e: SpExpr,
    m: Map<Seq<char>, (nat, bool)>,
) -> Result<(SpExpr, int), ParseError>
    decreases ts.len() - pos, 2int,
{
    match op_at(ts, pos) {
        Option::Some(op) => if additive_op(op) {
            match sp_term(ts, pos + 1, m) {
                Result::Ok((rhs, np)) => if !(pos < np <= ts.len()) {
                    Result::Err(ParseError::UnexpectedEnd)
                } else {
                    sp_more_additive(
                        ts,
                        np,
                        SpExpr::Binary(op, Box::new(e), Box::new(rhs)),
                        m,
                    )
                },
                Result::Err(er) => Result::Err(er),
            }
        } else {
            Result::Ok((e, pos))
        },
        Option::None => Result::Ok((e, pos)),
    }
}

/// The bitwise level: an additive expression, then any bitwise operator
/// with a full expression as its right operand.
pub open spec fn sp_bitwise(ts: Seq<Token>, pos: int, m: Map<Seq<char>, (nat, bool)>) -> Result<
    (SpExpr, int),
    ParseError,
>
    decreases ts.len() - pos, 3int,
{
    match sp_additive(ts, pos, m) {
        Result::Ok((e, np)) => if !(pos < np <= ts.len()) {
            Result::Err(ParseError::UnexpectedEnd)
        } else {
            sp_more_bitwise(ts, np, e, m)
        },
        Result::Err(er) => Result::Err(er),
    }
}

/// The bitwise level's continuation.
pub open spec fn sp_more_bitwise(
    ts: Seq<Token>,
    pos: int,
    e: SpExpr,
    m: Map<Seq<char>, (nat, bool)>,
) -> Result<(SpExpr, int), ParseError>
    decreases ts.len() - pos, 3int,
{
    match op_at(ts, pos) {
        Option::Some(op) => if bitwise_op(op) {
            match sp_expression(ts, pos + 1, m) {
                Result::Ok((rhs, np)) => if !(pos < np <= ts.len()) {
                    Result::Err(ParseError::UnexpectedEnd)
                } else {
                    sp_more_bitwise(
                        ts,
                        np,
                        SpExpr::Binary(op, Box::new(e), Box::new(rhs)),
                        m,
                    )
                },
                Result::Err(er) => Result::Err(er),
            }
        } else {
            Result::Ok((e, pos))
        },
        Option::None => Result::Ok((e, pos)),
    }
}

/// The relational level: a bitwise expression, then any relational
/// operator with a full expression as its right operand.
pub open spec fn sp_relational(ts: Seq<Token>, pos: int, m: Map<Seq<char>, (nat, bool)>) -> Result<
    (SpExpr, int),
    ParseError,
>
    decreases ts.len() - pos, 4int,
{
    match sp_bitwise(ts, pos, m) {
        Result::Ok((e, np)) => if !(pos < np <= ts.len()) {
            Result::Err(ParseError::UnexpectedEnd)
        } else {
            sp_more_relational(ts, np, e, m)
        },
        Result::Err(er) => Result::Err(er),
    }
}

/// The relational level's continuation.
pub open spec fn sp_more_relational(
    ts: Seq<Token>,
    pos: int,
    e: SpExpr,
    m: Map<Seq<char>, (nat, bool)>,
) -> Result<(SpExpr, int), ParseError>
    decreases ts.len() - pos, 4int,
{
    match op_at(ts, pos) {
        Option::Some(op) => if relational_op(op) {
            match sp_expression(ts, pos + 1, m) {
                Result::Ok((rhs, np)) => if !(pos < np <= ts.len()) {
                    Result::Err(ParseError::UnexpectedEnd)
                } else {
                    sp_more_relational(
                        ts,
                        np,
                        SpExpr::Binary(op, Box::new(e), Box::new(rhs)),
                        m,
                    )
                },
                Result::Err(er) => Result::Err(er),
            }
        } else {
            Result::Ok((e, pos))
        },
        Option::None => Result::Ok((e, pos)),
    }
}

/// The equality level: a relational expression, then `==` or `!=` with a
/// full expression as the right operand.
pub open spec fn sp_equality(ts: Seq<Token>, pos: int, m: Map<Seq<char>, (nat, bool)>) -> Result<
    (SpExpr, int),
    ParseError,
>
    decreases ts.len() - pos, 5int,
{
    match sp_relational(ts, pos, m) {
        Result::Ok((e, np)) => if !(pos < np <= ts.len()) {
            Result::Err(ParseError::UnexpectedEnd)
        } else {
            sp_more_equality(ts, np, e, m)
        },
        Result::Err(er) => Result::Err(er),
    }
}

/// The equality level's continuation.
pub open spec fn sp_more_equality(
    ts: Seq<Token>,
    pos: int,
    e: SpExpr,
    m: Map<Seq<char>, (nat, bool)>,
) -> Result<(SpExpr, int), ParseError>
    decreases ts.len() - pos, 5int,
{
    match op_at(ts, pos) {
        Option::Some(op) => if equality_op(op) {
            match sp_expression(ts, pos + 1, m) {
                Result::Ok((rhs, np)) => if !(pos < np <= ts.len()) {
                    Result::Err(ParseError::UnexpectedEnd)
                } else {
                    sp_more_equality(
                        ts,
                        np,
                        SpExpr::Binary(op, Box::new(e), Box::new(rhs)),
                        m,
                    )
                },
                Result::Err(er) => Result::Err(er),
            }
        } else {
            Result::Ok((e, pos))
        },
        Option::None => Result::Ok((e, pos)),
    }
}

/// The logical-AND level: an equality expression, then `&&` with a full
/// expression as the right operand.
pub open spec fn sp_logical_and(ts: Seq<Token>, pos: int, m: Map<Seq<char>, (nat, bool)>) -> Result<
    (SpExpr, int),
    ParseError,
>
    decreases ts.len() - pos, 6int,
{
    match sp_equality(ts, pos, m) {
        Result::Ok((e, np)) => if !(pos < np <= ts.len()) {
            Result::Err(ParseError::UnexpectedEnd)
        } else {
            sp_more_logical_and(ts, np, e, m)
        },
        Result::Err(er) => Result::Err(er),
    }
}

/// The logical-AND level's continuation.
pub open spec fn sp_more_logical_and(
    ts: Seq<Token>,
    pos: int,
    e: SpExpr,
    m: Map<Seq<char>, (nat, bool)>,
) -> Result<(SpExpr, int), ParseError>
    decreases ts.len() - pos, 6int,
{
    if tok_is_op(ts, pos, Operator::LogicalAnd) {
        match sp_expression(ts, pos + 1, m) {
            Result::Ok((rhs, np)) => if !(pos < np <= ts.len()) {
                Result::Err(ParseError::UnexpectedEnd)
            } else {
                sp_more_logical_and(
                    ts,
                    np,
                    SpExpr::Binary(Operator::LogicalAnd, Box::new(e), Box::new(rhs)),
                    m,
                )
            },
            Result::Err(er) => Result::Err(er),
        }
    } else {
        Result::Ok((e, pos))
    }
}

/// The logical-OR level: a logical-AND expression, then `||` with a full
/// expression as the right operand.
pub open spec fn sp_logical_or(ts: Seq<Token>, pos: int, m: Map<Seq<char>, (nat, bool)>) -> Result<
    (SpExpr, int),
    ParseError,
>
    decreases ts.len() - pos, 7int,
{
    match sp_logical_and(ts, pos, m) {
        Result::Ok((e, np)) => if !(pos < np <= ts.len()) {
            Result::Err(ParseError::UnexpectedEnd)
        } else {
            sp_more_logical_or(ts, np, e, m)
        },
        Result::Err(er) => Result::Err(er),
    }
}

/// The logical-OR level's continuation.
pub open spec fn sp_more_logical_or(
    ts: Seq<Token>,
    pos: int,
    e: SpExpr,
    m: Map<Seq<char>, (nat, bool)>,
) -> Result<(SpExpr, int), ParseError>
    decreases ts.len() - pos, 7int,
{
    if tok_is_op(ts, pos, Operator::LogicalOr) {
        match sp_expression(ts, pos + 1, m) {
            Result::Ok((rhs, np)) => if !(pos < np <= ts.len()) {
                Result::Err(ParseError::UnexpectedEnd)
            } else {
                sp_more_logical_or(
                    ts,
                    np,
                    SpExpr::Binary(Operator::LogicalOr, Box::new(e), Box::new(rhs)),
                    m,
                )
            },
            Result::Err(er) => Result::Err(er),
        }
    } else {
        Result::Ok((e, pos))
    }
}

/// The conditional level: a logical-OR expression, then any `? expr : expr`
/// tails, each branch a full expression.
pub open spec fn sp_conditional(ts: Seq<Token>, pos: int, m: Map<Seq<char>, (nat, bool)>) -> Result<
    (SpExpr, int),
    ParseError,
>
    decreases ts.len() - pos, 8int,
{
    match sp_logical_or(ts, pos, m) {
        Result::Ok((e, np)) => if !(pos < np <= ts.len()) {
            Result::Err(ParseError::UnexpectedEnd)
        } else {
            sp_more_conditional(ts, np, e, m)
        },
        Result::Err(er) => Result::Err(er),
    }
}

/// The conditional level's continuation.
pub open spec fn sp_more_conditional(
    ts: Seq<Token>,
    pos: int,
    e: SpExpr,
    m: Map<Seq<char>, (nat, bool)>,
) -> Result<(SpExpr, int), ParseError>
    decreases ts.len() - pos, 8int,
{
    if tok_is_punct(ts, pos, Punctuator::QuestionMark) {
        match sp_expression(ts, pos + 1, m) {
            Result::Ok((te, p1)) => if !(pos < p1 <= ts.len()) {
                Result::Err(ParseError::UnexpectedEnd)
            } else {
                match sp_tok_punct(ts, p1, Punctuator::Colon) {
                    Result::Ok(p2) => match sp_expression(ts, p2, m) {
                        Result::Ok((fe, p3)) => if !(pos < p3 <= ts.len()) {
                            Result::Err(ParseError::UnexpectedEnd)
                        } else {
                            sp_more_conditional(
                                ts,
                                p3,
                                SpExpr::Ternary(Box::new(e), Box::new(te), Box::new(fe)),
                                m,
                            )
                        },
                        Result::Err(er) => Result::Err(er),
                    },
                    Result::Err(er) => Result::Err(er),
                }
            },
            Result::Err(er) => Result::Err(er),
        }
    } else {
        Result::Ok((e, pos))
    }
}

/// A full expression. An identifier followed directly by an assignment
/// operator begins a right-associative assignment; anything else is the
/// conditional level.
pub open spec fn sp_expression(ts: Seq<Token>, pos: int, m: Map<Seq<char>, (nat, bool)>) -> Result<
    (SpExpr, int),
    ParseError,
>
    decreases ts.len() - pos, 9int,
{
    if 0 <= pos && pos + 2 <= ts.len() {
        match ts[pos] {
            Token::Identifier(s) => match ts[pos + 1] {
                Token::Operator(op) => if assign_op(op) {
                    match sp_expression(ts, pos + 2, m) {
                        Result::Ok((rhs, np)) => Result::Ok(
                            (SpExpr::Assign(op, s, Box::new(rhs)), np),
                        ),
                        Result::Err(er) => Result::Err(er),
                    }
                } else {
                    sp_conditional(ts, pos, m)
                },
                _ => sp_conditional(ts, pos, m),
            },
            _ => sp_conditional(ts, pos, m),
        }
    } else {
        sp_conditional(ts, pos, m)
    }
}

/// An expression unless the delimiting punctuator stands next, in which
/// case nothing is consumed.
pub open spec fn sp_optional_expression(
    ts: Seq<Token>,
    pos: int,
    expected: Punctuator,
    m: Map<Seq<char>, (nat, bool)>,
) -> Result<(Option<SpExpr>, int), ParseError>
    decreases ts.len() - pos, 10int,
{
    if tok_is_punct(ts, pos, expected) {
        Result::Ok((Option::None, pos))
    } else {
        match sp_expression(ts, pos, m) {
            Result::Ok((e, np)) => Result::Ok((Option::Some(e), np)),
            Result::Err(er) => Result::Err(er),
        }
    }
}

/// `int name [= expression] ;`.
pub open spec fn sp_declaration(ts: Seq<Token>, pos: int, m: Map<Seq<char>, (nat, bool)>) -> Result<
    (SpDecl, int),
    ParseError,
>
    decreases ts.len() - pos, 12int,
{
    match sp_tok_kw(ts, pos, Keyword::Int) {
        Result::Ok(p1) => match sp_tok_ident(ts, p1) {
            Result::Ok((name, p2)) => if tok_is_op(ts, p2, Operator::Assignment) {
                match sp_expression(ts, p2 + 1, m) {
                    Result::Ok((e, p3)) => match sp_tok_punct(ts, p3, Punctuator::Semicolon) {
                        Result::Ok(p4) => Result::Ok(
                            (SpDecl { name: name, init: Option::Some(e) }, p4),
                        ),
                        Result::Err(er) => Result::Err(er),
                    },
                    Result::Err(er) => Result::Err(er),
                }
            } else {
                match sp_tok_punct(ts, p2, Punctuator::Semicolon) {
                    Result::Ok(p3) => Result::Ok(
                        (SpDecl { name: name, init: Option::None }, p3),
                    ),
                    Result::Err(er) => Result::Err(er),
                }
            },
            Result::Err(er) => Result::Err(er),
        },
        Result::Err(er) => Result::Err(er),
    }
}

/// One statement, dispatched on its leading token.
pub open spec fn sp_statement(ts: Seq<Token>, pos: int, m: Map<Seq<char>, (nat, bool)>) -> Result<
    (SpStmt, int),
    ParseError,
>
    decreases ts.len() - pos, 13int,
{
    if tok_is_kw(ts, pos, Keyword::Return) {
        match sp_expression(ts, pos + 1, m) {
            Result::Ok((e, p1)) => match sp_tok_punct(ts, p1, Punctuator::Semicolon) {
                Result::Ok(p2) => Result::Ok((SpStmt::Return(e), p2)),
                Result::Err(er) => Result::Err(er),
            },
            Result::Err(er) => Result::Err(er),
        }
    } else if tok_is_kw(ts, pos, Keyword::If) {
        sp_if_statement(ts, pos + 1, m)
    } else if tok_is_kw(ts, pos, Keyword::For) {
        sp_for_statement(ts, pos + 1, m)
    } else if tok_is_kw(ts, pos, Keyword::While) {
        sp_while_statement(ts, pos + 1, m)
    } else if tok_is_kw(ts, pos, Keyword::Do) {
        match sp_do_statement(ts, pos + 1, m) {
            Result::Ok((s, p1)) => match sp_tok_punct(ts, p1, Punctuator::Semicolon) {
                Result::Ok(p2) => Result::Ok((s, p2)),
                Result::Err(er) => Result::Err(er),
            },
            Result::Err(er) => Result::Err(er),
        }
    } else if tok_is_kw(ts, pos, Keyword::Break) {
        match sp_tok_punct(ts, pos + 1, Punctuator::Semicolon) {
            Result::Ok(p1) => Result::Ok((SpStmt::Break, p1)),
            Result::Err(er) => Result::Err(er),
        }
    } else if tok_is_kw(ts, pos, Keyword::Continue) {
        match sp_tok_punct(ts, pos + 1, Punctuator::Semicolon) {
            Result::Ok(p1) => Result::Ok((SpStmt::Continue, p1)),
            Result::Err(er) => Result::Err(er),
        }
    } else if tok_is_punct(ts, pos, Punctuator::OpenBrace) {
        match sp_items(ts, pos + 1, m) {
            Result::Ok((items, p1)) => Result::Ok((SpStmt::Compound(items), p1)),
            Result::Err(er) => Result::Err(er),
        }
    } else {
        match sp_optional_expression(ts, pos, Punctuator::Semicolon, m) {
            Result::Ok((oe, p1)) => match sp_tok_punct(ts, p1, Punctuator::Semicolon) {
                Result::Ok(p2) => Result::Ok((SpStmt::Expression(oe), p2)),
                Result::Err(er) => Result::Err(er),
            },
            Result::Err(er) => Result::Err(er),
        }
    }
}

/// The remainder of `if ( expression ) statement [else statement]`.
pub open spec fn sp_if_statement(ts: Seq<Token>, pos: int, m: Map<Seq<char>, (nat, bool)>) -> Result<
    (SpStmt, int),
    ParseError,
>
    decreases ts.len() - pos, 14int,
{
    match sp_tok_punct(ts, pos, Punctuator::OpenParen) {
        Result::Ok(p1) => match sp_expression(ts, p1, m) {
            Result::Ok((cond, p2)) => if !(pos < p2 <= ts.len()) {
                Result::Err(ParseError::UnexpectedEnd)
            } else {
                match sp_tok_punct(ts, p2, Punctuator::CloseParen) {
                    Result::Ok(p3) => match sp_statement(ts, p3, m) {
                        Result::Ok((tb, p4)) => if !(pos < p4 <= ts.len()) {
                            Result::Err(ParseError::UnexpectedEnd)
                        } else {
                            if tok_is_kw(ts, p4, Keyword::Else) {
                                match sp_statement(ts, p4 + 1, m) {
                                    Result::Ok((eb, p5)) => Result::Ok(
                                        (
                                            SpStmt::If(
                                                cond,
                                                Box::new(tb),
                                                Option::Some(Box::new(eb)),
                                            ),
                                            p5,
                                        ),
                                    ),
                                    Result::Err(er) => Result::Err(er),
                                }
                            } else {
                                Result::Ok((SpStmt::If(cond, Box::new(tb), Option::None), p4))
                            }
                        },
                        Result::Err(er) => Result::Err(er),
                    },
                    Result::Err(er) => Result::Err(er),
                }
            },
            Result::Err(er) => Result::Err(er),
        },
        Result::Err(er) => Result::Err(er),
    }
}

/// The remainder of a `for` statement: a declaration initializer where the
/// integer type keyword leads, an optional expression initializer
/// otherwise.
pub open spec fn sp_for_statement(ts: Seq<Token>, pos: int, m: Map<Seq<char>, (nat, bool)>) -> Result<
    (SpStmt, int),
    ParseError,
>
    decreases ts.len() - pos, 14int,
{
    match sp_tok_punct(ts, pos, Punctuator::OpenParen) {
        Result::Ok(p1) => if tok_is_kw(ts, p1, Keyword::Int) {
            match sp_declaration(ts, p1, m) {
                Result::Ok((d, p2)) => if !(pos < p2 <= ts.len()) {
                    Result::Err(ParseError::UnexpectedEnd)
                } else {
                    match sp_for_components(ts, p2, m) {
                        Result::Ok((c, p3)) => Result::Ok(
                            (SpStmt::ForDeclaration(d, c.0, c.1, Box::new(c.2)), p3),
                        ),
                        Result::Err(er) => Result::Err(er),
                    }
                },
                Result::Err(er) => Result::Err(er),
            }
        } else {
            match sp_optional_expression(ts, p1, Punctuator::Semicolon, m) {
                Result::Ok((oe, p2)) => if !(pos <= p2 <= ts.len()) {
                    Result::Err(ParseError::UnexpectedEnd)
                } else {
                    match sp_tok_punct(ts, p2, Punctuator::Semicolon) {
                        Result::Ok(p3) => match sp_for_components(ts, p3, m) {
                            Result::Ok((c, p4)) => Result::Ok(
                                (SpStmt::For(oe, c.0, c.1, Box::new(c.2)), p4),
                            ),
                            Result::Err(er) => Result::Err(er),
                        },
                        Result::Err(er) => Result::Err(er),
                    }
                },
                Result::Err(er) => Result::Err(er),
            }
        },
        Result::Err(er) => Result::Err(er),
    }
}

/// A loop's condition, post-expression and body: the part of a `for` head
/// after the initializer's semicolon, then the body. An absent condition
/// stands for the constant `1`.
pub open spec fn sp_for_components(ts: Seq<Token>, pos: int, m: Map<Seq<char>, (nat, bool)>) -> Result<
    ((SpExpr, Option<SpExpr>, SpStmt), int),
    ParseError,
>
    decreases ts.len() - pos, 14int,
{
    match sp_optional_expression(ts, pos, Punctuator::Semicolon, m) {
        Result::Ok((oc, p1)) => if !(pos <= p1 <= ts.len()) {
            Result::Err(ParseError::UnexpectedEnd)
        } else {
            let cond = match oc {
                Option::Some(e) => e,
                Option::None => SpExpr::Constant(1),
            };
            match sp_tok_punct(ts, p1, Punctuator::Semicolon) {
                Result::Ok(p2) => match sp_optional_expression(
                    ts,
                    p2,
                    Punctuator::CloseParen,
                    m,
                ) {
                    Result::Ok((om, p3)) => if !(pos <= p3 <= ts.len()) {
                        Result::Err(ParseError::UnexpectedEnd)
                    } else {
                        match sp_tok_punct(ts, p3, Punctuator::CloseParen) {
                            Result::Ok(p4) => match sp_statement(ts, p4, m) {
                                Result::Ok((body, p5)) => Result::Ok(((cond, om, body), p5)),
                                Result::Err(er) => Result::Err(er),
                            },
                            Result::Err(er) => Result::Err(er),
                        }
                    },
                    Result::Err(er) => Result::Err(er),
                },
                Result::Err(er) => Result::Err(er),
            }
        },
        Result::Err(er) => Result::Err(er),
    }
}

/// The remainder of `while ( expression ) statement`.
pub open spec fn sp_while_statement(ts: Seq<Token>, pos: int, m: Map<Seq<char>, (nat, bool)>) -> Result<
    (SpStmt, int),
    ParseError,
>
    decreases ts.len() - pos, 14int,
{
    match sp_tok_punct(ts, pos, Punctuator::OpenParen) {
        Result::Ok(p1) => match sp_expression(ts, p1, m) {
            Result::Ok((cond, p2)) => if !(pos < p2 <= ts.len()) {
                Result::Err(ParseError::UnexpectedEnd)
            } else {
                match sp_tok_punct(ts, p2, Punctuator::CloseParen) {
                    Result::Ok(p3) => match sp_statement(ts, p3, m) {
                        Result::Ok((body, p4)) => Result::Ok(
                            (SpStmt::While(cond, Box::new(body)), p4),
                        ),
                        Result::Err(er) => Result::Err(er),
                    },
                    Result::Err(er) => Result::Err(er),
                }
            },
            Result::Err(er) => Result::Err(er),
        },
        Result::Err(er) => Result::Err(er),
    }
}

/// The remainder of `do statement while ( expression )`; the caller takes
/// the trailing semicolon.
pub open spec fn sp_do_statement(ts: Seq<Token>, pos: int, m: Map<Seq<char>, (nat, bool)>) -> Result<
    (SpStmt, int),
    ParseError,
>
    decreases ts.len() - pos, 14int,
{
    match sp_statement(ts, pos, m) {
        Result::Ok((body, p1)) => if !(pos < p1 <= ts.len()) {
            Result::Err(ParseError::UnexpectedEnd)
        } else {
            match sp_tok_kw(ts, p1, Keyword::While) {
                Result::Ok(p2) => match sp_tok_punct(ts, p2, Punctuator::OpenParen) {
                    Result::Ok(p3) => match sp_expression(ts, p3, m) {
                        Result::Ok((cond, p4)) => match sp_tok_punct(
                            ts,
                            p4,
                            Punctuator::CloseParen,
                        ) {
                            Result::Ok(p5) => Result::Ok(
                                (SpStmt::DoWhile(cond, Box::new(body)), p5),
                            ),
                            Result::Err(er) => Result::Err(er),
                        },
                        Result::Err(er) => Result::Err(er),
                    },
                    Result::Err(er) => Result::Err(er),
                },
                Result::Err(er) => Result::Err(er),
            }
        },
        Result::Err(er) => Result::Err(er),
    }
}

/// One block item: a declaration where the integer type keyword leads, a
/// statement otherwise.
pub open spec fn sp_items_item(ts: Seq<Token>, pos: int, m: Map<Seq<char>, (nat, bool)>) -> Result<
    (SpItem, int),
    ParseError,
>
    decreases ts.len() - pos, 15int,
{
    if tok_is_kw(ts, pos, Keyword::Int) {
        match sp_declaration(ts, pos, m) {
            Result::Ok((d, np)) => Result::Ok((SpItem::Declaration(d), np)),
            Result::Err(er) => Result::Err(er),
        }
    } else if 0 <= pos < ts.len() {
        match sp_statement(ts, pos, m) {
            Result::Ok((s, np)) => Result::Ok((SpItem::Statement(s), np)),
            Result::Err(er) => Result::Err(er),
        }
    } else {
        Result::Err(ParseError::UnexpectedEnd)
    }
}

/// Block items up to and including the closing brace.
pub open spec fn sp_items(ts: Seq<Token>, pos: int, m: Map<Seq<char>, (nat, bool)>) -> Result<
    (Seq<SpItem>, int),
    ParseError,
>
    decreases ts.len() - pos, 16int,
{
    if tok_is_punct(ts, pos, Punctuator::CloseBrace) {
        Result::Ok((Seq::empty(), pos + 1))
    } else {
        match sp_items_item(ts, pos, m) {
            Result::Ok((it, np)) => if !(pos < np <= ts.len()) {
                Result::Err(ParseError::UnexpectedEnd)
            } else {
                match sp_items(ts, np, m) {
                    Result::Ok((rest, p2)) => Result::Ok((seq![it] + rest, p2)),
                    Result::Err(er) => Result::Err(er),
                }
            },
            Result::Err(er) => Result::Err(er),
        }
    }
}

/// One function declaration: header, signature check against the map, and
/// a body block or a prototype's semicolon. Returns the parse outcome and
/// the signature map afterwards — unchanged on an error raised before the
/// header is recorded.
pub open spec fn sp_function(ts: Seq<Token>, pos: int, m: Map<Seq<char>, (nat, bool)>) -> (
    Result<(SpFun, int), ParseError>,
    Map<Seq<char>, (nat, bool)>,
)
    decreases ts.len() - pos, 17int,
{
    match sp_tok_kw(ts, pos, Keyword::Int) {
        Result::Ok(p1) => match sp_tok_ident(ts, p1) {
            Result::Ok((id, p2)) => match sp_tok_punct(ts, p2, Punctuator::OpenParen) {
                Result::Ok(p3) => match sp_function_parameters(ts, p3) {
                    Result::Ok((ps, p4)) => if !(pos < p4 <= ts.len()) {
                        (Result::Err(ParseError::UnexpectedEnd), m)
                    } else {
                        let has_body = tok_is_punct(ts, p4, Punctuator::OpenBrace);
                        if m.dom().contains(id@) && m[id@].0 != ps.len() {
                            (Result::Err(ParseError::ArityConflict(id)), m)
                        } else if m.dom().contains(id@) && m[id@].1 && has_body {
                            (Result::Err(ParseError::Redefinition(id)), m)
                        } else {
                            let m2 = if m.dom().contains(id@) {
                                m.insert(id@, (ps.len(), m[id@].1 || has_body))
                            } else {
                                m.insert(id@, (ps.len(), has_body))
                            };
                            if has_body {
                                match sp_items(ts, p4 + 1, m2) {
                                    Result::Ok((items, p5)) => (
                                        Result::Ok(
                                            (
                                                SpFun {
                                                    name: id,
                                                    params: ps,
                                                    body: Option::Some(items),
                                                },
                                                p5,
                                            ),
                                        ),
                                        m2,
                                    ),
                                    Result::Err(er) => (Result::Err(er), m2),
                                }
                            } else if tok_is_punct(ts, p4, Punctuator::Semicolon) {
                                (
                                    Result::Ok(
                                        (
                                            SpFun {
                                                name: id,
                                                params: ps,
                                                body: Option::None,
                                            },
                                            p4 + 1,
                                        ),
                                    ),
                                    m2,
                                )
                            } else if p4 < ts.len() {
                                (Result::Err(ParseError::UnexpectedToken(p4 as usize)), m2)
                            } else {
                                (Result::Err(ParseError::UnexpectedEnd), m2)
                            }
                        }
                    },
                    Result::Err(er) => (Result::Err(er), m),
                },
                Result::Err(er) => (Result::Err(er), m),
            },
            Result::Err(er) => (Result::Err(er), m),
        },
        Result::Err(er) => (Result::Err(er), m),
    }
}

/// Function declarations until the tokens are exhausted, threading the
/// signature map.
pub open spec fn sp_functions(ts: Seq<Token>, pos: int, m: Map<Seq<char>, (nat, bool)>) -> (
    Result<(Seq<SpFun>, int), ParseError>,
    Map<Seq<char>, (nat, bool)>,
)
    decreases ts.len() - pos, 18int,
{
    if !(pos < ts.len()) {
        (Result::Ok((Seq::empty(), pos)), m)
    } else {
        let fr = sp_function(ts, pos, m);
        match fr.0 {
            Result::Ok((f, np)) => if !(pos < np <= ts.len()) {
                (Result::Err(ParseError::UnexpectedEnd), fr.1)
            } else {
                let rr = sp_functions(ts, np, fr.1);
                match rr.0 {
                    Result::Ok((fs, p2)) => (Result::Ok((seq![f] + fs, p2)), rr.1),
                    Result::Err(er) => (Result::Err(er), rr.1),
                }
            },
            Result::Err(er) => (Result::Err(er), fr.1),
        }
    }
}

/// The whole grammar: what the token sequence parses to, starting from an
/// empty signature map — or the error the parse stops with.
pub open spec fn sp_parse(ts: Seq<Token>) -> Result<Seq<SpFun>, ParseError> {
    match sp_functions(ts, 0, Map::empty()).0 {
        Result::Ok((fs, _)) => Result::Ok(fs),
        Result::Err(er) => Result::Err(er),
    }
}

} // verus!
