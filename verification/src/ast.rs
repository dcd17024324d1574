//! The abstract syntax tree: the target representation of the parse. A
//! program is a sequence of function declarations; every node owns its
//! children outright, so the tree has no sharing and no cycles.
//!
//! The module also defines what it means for every call site in a tree to be
//! consistent with a map from function names to arities: each called name is
//! in the map and the argument count equals the mapped arity. The parser
//! guarantees this of every tree it returns.

use vstd::prelude::*;
use crate::token::Operator;

verus! {

/// A whole program.
#[derive(Debug)]
pub enum Ast {
    Ast(Vec<AstNode>),
}

/// One function declaration: name, parameter names, and the body items.
/// The body is absent for a forward declaration (prototype).
#[derive(Debug)]
pub enum AstNode {
    AstNode(String, Vec<String>, Option<Vec<Item>>),
}

/// One element of a block: a variable declaration or a statement.
#[derive(Debug)]
pub enum Item {
    Declaration(Declaration),
    Statement(Statement),
}

/// A variable declaration with an optional initializer.
#[derive(Debug)]
pub enum Declaration {
    Declaration(String, Option<Expression>),
}

/// The closed set of statement forms.
#[derive(Debug)]
pub enum Statement {
    Expression(Option<Expression>),
    Return(Expression),
    If(Expression, Box<Statement>, Option<Box<Statement>>),
    Compound(Vec<Item>),
    For(Option<Expression>, Expression, Option<Expression>, Box<Statement>),
    ForDeclaration(Declaration, Expression, Option<Expression>, Box<Statement>),
    While(Expression, Box<Statement>),
    DoWhile(Expression, Box<Statement>),
    Break,
    Continue,
}

/// The closed set of expression forms.
#[derive(Debug)]
pub enum Expression {
    Constant(i32),
    Variable(String),
    UnaryOperators(Operator, Box<Expression>),
    AssignmentOperators(Operator, String, Box<Expression>),
    BinaryOperators(Operator, Box<Expression>, Box<Expression>),
    TernaryOperators(Box<Expression>, Box<Expression>, Box<Expression>),
    FunctionCalls(String, Vec<Expression>),
}

/// Every call inside `e` names a function in `m` and passes exactly the
/// mapped number of arguments.
pub open spec fn expr_calls_ok(e: Expression, m: Map<Seq<char>, nat>) -> bool
    decreases e,
{
    match e {
        Expression::Constant(_) => true,
        Expression::Variable(_) => true,
        Expression::UnaryOperators(_, inner) => expr_calls_ok(*inner, m),
        Expression::AssignmentOperators(_, _, rhs) => expr_calls_ok(*rhs, m),
        Expression::BinaryOperators(_, lhs, rhs) => expr_calls_ok(*lhs, m) && expr_calls_ok(
            *rhs,
            m,
        ),
        Expression::TernaryOperators(cond, te, fe) => expr_calls_ok(*cond, m) && expr_calls_ok(
            *te,
            m,
        ) && expr_calls_ok(*fe, m),
        Expression::FunctionCalls(name, args) => m.dom().contains(name@) && m[name@]
            == args@.len() && exprs_calls_ok(args@, m),
    }
}

/// `expr_calls_ok` over a sequence of expressions.
pub open spec fn exprs_calls_ok(es: Seq<Expression>, m: Map<Seq<char>, nat>) -> bool
    decreases es,
{
    if es.len() == 0 {
        true
    } else {
        expr_calls_ok(es[0], m) && exprs_calls_ok(es.drop_first(), m)
    }
}

/// `expr_calls_ok` for an optional expression.
pub open spec fn opt_expr_calls_ok(oe: Option<Expression>, m: Map<Seq<char>, nat>) -> bool
    decreases oe,
{
    match oe {
        Option::Some(e) => expr_calls_ok(e, m),
        Option::None => true,
    }
}

/// Every call inside the declaration's initializer is consistent with `m`.
pub open spec fn decl_calls_ok(d: Declaration, m: Map<Seq<char>, nat>) -> bool
    decreases d,
{
    match d {
        Declaration::Declaration(_, init) => opt_expr_calls_ok(init, m),
    }
}

/// Every call inside the statement is consistent with `m`.
pub open spec fn stmt_calls_ok(s: Statement, m: Map<Seq<char>, nat>) -> bool
    decreases s,
{
    match s {
        Statement::Expression(oe) => opt_expr_calls_ok(oe, m),
        Statement::Return(e) => expr_calls_ok(e, m),
        Statement::If(c, t, oe) => expr_calls_ok(c, m) && stmt_calls_ok(*t, m) && match oe {
            Option::Some(e) => stmt_calls_ok(*e, m),
            Option::None => true,
        },
        Statement::Compound(items) => items_calls_ok(items@, m),
        Statement::For(init, cond, post, body) => opt_expr_calls_ok(init, m) && expr_calls_ok(
            cond,
            m,
        ) && opt_expr_calls_ok(post, m) && stmt_calls_ok(*body, m),
        Statement::ForDeclaration(init, cond, post, body) => decl_calls_ok(init, m)
            && expr_calls_ok(cond, m) && opt_expr_calls_ok(post, m) && stmt_calls_ok(*body, m),
        Statement::While(cond, body) => expr_calls_ok(cond, m) && stmt_calls_ok(*body, m),
        Statement::DoWhile(cond, body) => expr_calls_ok(cond, m) && stmt_calls_ok(*body, m),
        Statement::Break => true,
        Statement::Continue => true,
    }
}

/// `stmt_calls_ok` / `decl_calls_ok` over one block item.
pub open spec fn item_calls_ok(it: Item, m: Map<Seq<char>, nat>) -> bool
    decreases it,
{
    match it {
        Item::Declaration(d) => decl_calls_ok(d, m),
        Item::Statement(s) => stmt_calls_ok(s, m),
    }
}

/// `item_calls_ok` over a sequence of items.
pub open spec fn items_calls_ok(items: Seq<Item>, m: Map<Seq<char>, nat>) -> bool
    decreases items,
{
    if items.len() == 0 {
        true
    } else {
        item_calls_ok(items[0], m) && items_calls_ok(items.drop_first(), m)
    }
}

/// Every call inside the function's body is consistent with `m`.
pub open spec fn fun_calls_ok(f: AstNode, m: Map<Seq<char>, nat>) -> bool
    decreases f,
{
    match f {
        AstNode::AstNode(_, _, body) => match body {
            Option::Some(items) => items_calls_ok(items@, m),
            Option::None => true,
        },
    }
}

/// `fun_calls_ok` over a sequence of function declarations.
pub open spec fn funs_calls_ok(fs: Seq<AstNode>, m: Map<Seq<char>, nat>) -> bool
    decreases fs,
{
    if fs.len() == 0 {
        true
    } else {
        fun_calls_ok(fs[0], m) && funs_calls_ok(fs.drop_first(), m)
    }
}

/// Every call site anywhere in the program is consistent with `m`.
pub open spec fn prog_calls_ok(p: Ast, m: Map<Seq<char>, nat>) -> bool
    decreases p,
{
    match p {
        Ast::Ast(funs) => funs_calls_ok(funs@, m),
    }
}

/// `m2` keeps every arity that `m1` records.
pub open spec fn arity_extends(m1: Map<Seq<char>, nat>, m2: Map<Seq<char>, nat>) -> bool {
    forall|n: Seq<char>|
        m1.dom().contains(n) ==> #[trigger] m2.dom().contains(n) && m2[n] == m1[n]
}

/// Call consistency survives extending the arity map.
pub proof fn lemma_expr_calls_ok_mono(
    e: Expression,
    m1: Map<Seq<char>, nat>,
    m2: Map<Seq<char>, nat>,
)
    requires
        expr_calls_ok(e, m1),
        arity_extends(m1, m2),
    ensures
        expr_calls_ok(e, m2),
    decreases e,
{
    match e {
        Expression::Constant(_) => {},
        Expression::Variable(_) => {},
        Expression::UnaryOperators(_, inner) => {
            lemma_expr_calls_ok_mono(*inner, m1, m2);
        },
        Expression::AssignmentOperators(_, _, rhs) => {
            lemma_expr_calls_ok_mono(*rhs, m1, m2);
        },
        Expression::BinaryOperators(_, lhs, rhs) => {
            lemma_expr_calls_ok_mono(*lhs, m1, m2);
            lemma_expr_calls_ok_mono(*rhs, m1, m2);
        },
        Expression::TernaryOperators(cond, te, fe) => {
            lemma_expr_calls_ok_mono(*cond, m1, m2);
            lemma_expr_calls_ok_mono(*te, m1, m2);
            lemma_expr_calls_ok_mono(*fe, m1, m2);
        },
        Expression::FunctionCalls(_, args) => {
            lemma_exprs_calls_ok_mono(args@, m1, m2);
        },
    }
}

/// Call consistency of an expression sequence survives extending the map.
pub proof fn lemma_exprs_calls_ok_mono(
    es: Seq<Expression>,
    m1: Map<Seq<char>, nat>,
    m2: Map<Seq<char>, nat>,
)
    requires
        exprs_calls_ok(es, m1),
        arity_extends(m1, m2),
    ensures
        exprs_calls_ok(es, m2),
    decreases es,
{
    if es.len() > 0 {
        lemma_expr_calls_ok_mono(es[0], m1, m2);
        lemma_exprs_calls_ok_mono(es.drop_first(), m1, m2);
    }
}

/// Call consistency of an optional expression survives extending the map.
pub proof fn lemma_opt_expr_calls_ok_mono(
    oe: Option<Expression>,
    m1: Map<Seq<char>, nat>,
    m2: Map<Seq<char>, nat>,
)
    requires
        opt_expr_calls_ok(oe, m1),
        arity_extends(m1, m2),
    ensures
        opt_expr_calls_ok(oe, m2),
{
    match oe {
        Option::Some(e) => lemma_expr_calls_ok_mono(e, m1, m2),
        Option::None => {},
    }
}

/// Call consistency of a declaration survives extending the map.
pub proof fn lemma_decl_calls_ok_mono(
    d: Declaration,
    m1: Map<Seq<char>, nat>,
    m2: Map<Seq<char>, nat>,
)
    requires
        decl_calls_ok(d, m1),
        arity_extends(m1, m2),
    ensures
        decl_calls_ok(d, m2),
{
    match d {
        Declaration::Declaration(_, init) => lemma_opt_expr_calls_ok_mono(init, m1, m2),
    }
}

/// Call consistency of a statement survives extending the map.
pub proof fn lemma_stmt_calls_ok_mono(
    s: Statement,
    m1: Map<Seq<char>, nat>,
    m2: Map<Seq<char>, nat>,
)
    requires
        stmt_calls_ok(s, m1),
        arity_extends(m1, m2),
    ensures
        stmt_calls_ok(s, m2),
    decreases s,
{
    match s {
        Statement::Expression(oe) => lemma_opt_expr_calls_ok_mono(oe, m1, m2),
        Statement::Return(e) => lemma_expr_calls_ok_mono(e, m1, m2),
        Statement::If(c, t, oe) => {
            lemma_expr_calls_ok_mono(c, m1, m2);
            lemma_stmt_calls_ok_mono(*t, m1, m2);
            match oe {
                Option::Some(e) => lemma_stmt_calls_ok_mono(*e, m1, m2),
                Option::None => {},
            }
        },
        Statement::Compound(items) => lemma_items_calls_ok_mono(items@, m1, m2),
        Statement::For(init, cond, post, body) => {
            lemma_opt_expr_calls_ok_mono(init, m1, m2);
            lemma_expr_calls_ok_mono(cond, m1, m2);
            lemma_opt_expr_calls_ok_mono(post, m1, m2);
            lemma_stmt_calls_ok_mono(*body, m1, m2);
        },
        Statement::ForDeclaration(init, cond, post, body) => {
            lemma_decl_calls_ok_mono(init, m1, m2);
            lemma_expr_calls_ok_mono(cond, m1, m2);
            lemma_opt_expr_calls_ok_mono(post, m1, m2);
            lemma_stmt_calls_ok_mono(*body, m1, m2);
        },
        Statement::While(cond, body) => {
            lemma_expr_calls_ok_mono(cond, m1, m2);
            lemma_stmt_calls_ok_mono(*body, m1, m2);
        },
        Statement::DoWhile(cond, body) => {
            lemma_expr_calls_ok_mono(cond, m1, m2);
            lemma_stmt_calls_ok_mono(*body, m1, m2);
        },
        Statement::Break => {},
        Statement::Continue => {},
    }
}

/// Call consistency of one item survives extending the map.
pub proof fn lemma_item_calls_ok_mono(it: Item, m1: Map<Seq<char>, nat>, m2: Map<Seq<char>, nat>)
    requires
        item_calls_ok(it, m1),
        arity_extends(m1, m2),
    ensures
        item_calls_ok(it, m2),
    decreases it,
{
    match it {
        Item::Declaration(d) => lemma_decl_calls_ok_mono(d, m1, m2),
        Item::Statement(s) => lemma_stmt_calls_ok_mono(s, m1, m2),
    }
}

/// Call consistency of an item sequence survives extending the map.
pub proof fn lemma_items_calls_ok_mono(
    items: Seq<Item>,
    m1: Map<Seq<char>, nat>,
    m2: Map<Seq<char>, nat>,
)
    requires
        items_calls_ok(items, m1),
        arity_extends(m1, m2),
    ensures
        items_calls_ok(items, m2),
    decreases items,
{
    if items.len() > 0 {
        lemma_item_calls_ok_mono(items[0], m1, m2);
        lemma_items_calls_ok_mono(items.drop_first(), m1, m2);
    }
}

/// Appending an expression to a sequence: consistency of the whole is
/// consistency of the parts.
pub proof fn lemma_exprs_calls_ok_push(es: Seq<Expression>, e: Expression, m: Map<Seq<char>, nat>)
    ensures
        exprs_calls_ok(es.push(e), m) <==> (exprs_calls_ok(es, m) && expr_calls_ok(e, m)),
    decreases es,
{
    assert(es.push(e)[0] == if es.len() == 0 { e } else { es[0] });
    if es.len() == 0 {
        assert(es.push(e).drop_first() =~= Seq::<Expression>::empty());
        assert(exprs_calls_ok(es.push(e).drop_first(), m));
    } else {
        assert(es.push(e).drop_first() =~= es.drop_first().push(e));
        lemma_exprs_calls_ok_push(es.drop_first(), e, m);
    }
}

/// Appending an item to a sequence: consistency of the whole is consistency
/// of the parts.
pub proof fn lemma_items_calls_ok_push(items: Seq<Item>, it: Item, m: Map<Seq<char>, nat>)
    ensures
        items_calls_ok(items.push(it), m) <==> (items_calls_ok(items, m) && item_calls_ok(it, m)),
    decreases items,
{
    assert(items.push(it)[0] == if items.len() == 0 { it } else { items[0] });
    if items.len() == 0 {
        assert(items.push(it).drop_first() =~= Seq::<Item>::empty());
        assert(items_calls_ok(items.push(it).drop_first(), m));
    } else {
        assert(items.push(it).drop_first() =~= items.drop_first().push(it));
        lemma_items_calls_ok_push(items.drop_first(), it, m);
    }
}

/// Appending a function to a sequence: consistency of the whole is
/// consistency of the parts.
pub proof fn lemma_funs_calls_ok_push(fs: Seq<AstNode>, f: AstNode, m: Map<Seq<char>, nat>)
    ensures
        funs_calls_ok(fs.push(f), m) <==> (funs_calls_ok(fs, m) && fun_calls_ok(f, m)),
    decreases fs,
{
    assert(fs.push(f)[0] == if fs.len() == 0 { f } else { fs[0] });
    if fs.len() == 0 {
        assert(fs.push(f).drop_first() =~= Seq::<AstNode>::empty());
        assert(funs_calls_ok(fs.push(f).drop_first(), m));
    } else {
        assert(fs.push(f).drop_first() =~= fs.drop_first().push(f));
        lemma_funs_calls_ok_push(fs.drop_first(), f, m);
    }
}

/// Call consistency of a sequence of functions survives extending the map.
pub proof fn lemma_funs_calls_ok_mono(
    fs: Seq<AstNode>,
    m1: Map<Seq<char>, nat>,
    m2: Map<Seq<char>, nat>,
)
    requires
        funs_calls_ok(fs, m1),
        arity_extends(m1, m2),
    ensures
        funs_calls_ok(fs, m2),
    decreases fs,
{
    if fs.len() > 0 {
        lemma_fun_calls_ok_mono(fs[0], m1, m2);
        lemma_funs_calls_ok_mono(fs.drop_first(), m1, m2);
    }
}

/// Call consistency of a function survives extending the map.
pub proof fn lemma_fun_calls_ok_mono(f: AstNode, m1: Map<Seq<char>, nat>, m2: Map<Seq<char>, nat>)
    requires
        fun_calls_ok(f, m1),
        arity_extends(m1, m2),
    ensures
        fun_calls_ok(f, m2),
{
    match f {
        AstNode::AstNode(_, _, body) => match body {
            Option::Some(items) => lemma_items_calls_ok_mono(items@, m1, m2),
            Option::None => {},
        },
    }
}

} // verus!
