//! Recursive-descent parsing of the token sequence into an [`Ast`].
//!
//! Each grammar level is one function; expression parsing climbs the
//! precedence levels. The parser keeps a signature table mapping each
//! function name seen so far to its arity and whether a body has been seen;
//! headers are checked against it and call sites must name a known function
//! with the recorded arity. Whatever the parser returns is therefore
//! call-consistent: `parser`'s contract states this over the arity map that
//! the program's own headers induce.
//!
//! Beyond that, every function here is proved equal to the grammar's
//! functional specification in [`crate::grammar`]: on each token sequence
//! it returns exactly the tree (by shape) and final position that the
//! corresponding `sp_` function assigns, or exactly the parse error that
//! the specification names — success, the tree, and every failure are all
//! forced, at every level of the grammar.
//!
//! Associativity follows the layered grammar: the additive and
//! multiplicative levels bind left-to-right, while every other binary level
//! takes the whole expression grammar as its right operand and therefore
//! groups to the right; assignment and the ternary conditional are
//! right-associative as usual.

use vstd::prelude::*;
use crate::token::{Keyword, Operator, Punctuator, Token};
use crate::ast::{
    Ast, AstNode, Item, Declaration, Statement, Expression, expr_calls_ok, exprs_calls_ok,
    opt_expr_calls_ok, decl_calls_ok, stmt_calls_ok, item_calls_ok, items_calls_ok, fun_calls_ok,
    funs_calls_ok, prog_calls_ok, arity_extends, lemma_funs_calls_ok_mono,
    lemma_exprs_calls_ok_push, lemma_items_calls_ok_push, lemma_funs_calls_ok_push,
};
use crate::grammar::{
    SpItem, SpFun, op_at, sp_tok_punct, sp_tok_kw, sp_tok_ident, sp_next_parameter,
    sp_function_parameters, sp_more_parameters, sp_factor, sp_call_arguments, sp_more_arguments,
    sp_term, sp_more_term, sp_additive, sp_more_additive, sp_bitwise, sp_more_bitwise,
    sp_relational, sp_more_relational, sp_equality, sp_more_equality, sp_logical_and,
    sp_more_logical_and, sp_logical_or, sp_more_logical_or, sp_conditional, sp_more_conditional,
    sp_expression, sp_optional_expression, sp_declaration, sp_statement, sp_if_statement,
    sp_for_statement, sp_for_components, sp_while_statement, sp_do_statement, sp_items_item,
    sp_items, sp_function, sp_functions, sp_parse, view_expr, view_exprs, view_opt_expr,
    view_decl, view_stmt, view_item, view_items, view_fun, view_funs, view_prog,
    lemma_view_exprs_len, lemma_view_exprs_push, lemma_view_items_push, lemma_view_funs_push,
};

verus! {

/// Why a parse failed: the position of an unexpected token, an input that
/// ended too early, or a conflict with the signature table.
#[derive(Debug, Clone, PartialEq)]
pub enum ParseError {
    /// The token at this index is not allowed where it stands.
    UnexpectedToken(usize),
    /// The input ended where more tokens were required.
    UnexpectedEnd,
    /// A function was redeclared with a different parameter count.
    ArityConflict(String),
    /// A function received a second body.
    Redefinition(String),
    /// A call names a function that no earlier declaration introduced.
    UndeclaredFunction(String),
    /// A call passes a number of arguments other than the declared arity.
    WrongArgumentCount(String),
}

/// The signature table: for each function name, the declared arity and
/// whether a body has been seen. Entries are kept in insertion order; a
/// later entry for the same name supersedes an earlier one.
struct SigTable {
    entries: Vec<(String, usize, bool)>,
}

/// The map that a prefix of the entry list denotes: later entries win.
spec fn tbl_map(entries: Seq<(String, usize, bool)>) -> Map<Seq<char>, (nat, bool)>
    decreases entries,
{
    if entries.len() == 0 {
        Map::empty()
    } else {
        tbl_map(entries.drop_last()).insert(
            entries.last().0@,
            (entries.last().1 as nat, entries.last().2),
        )
    }
}

impl View for SigTable {
    type V = Map<Seq<char>, (nat, bool)>;

    closed spec fn view(&self) -> Map<Seq<char>, (nat, bool)> {
        tbl_map(self.entries@)
    }
}

/// Entries beyond `k` that never mention `name` do not change what the
/// table says of `name`.
proof fn lemma_tbl_map_skip(entries: Seq<(String, usize, bool)>, name: Seq<char>, k: int)
    requires
        0 <= k <= entries.len(),
        forall|t: int| k <= t < entries.len() ==> (#[trigger] entries[t]).0@ != name,
    ensures
        tbl_map(entries).dom().contains(name) == tbl_map(entries.take(k)).dom().contains(name),
        tbl_map(entries).dom().contains(name) ==> tbl_map(entries)[name] == tbl_map(
            entries.take(k),
        )[name],
    decreases entries.len() - k,
{
    if k < entries.len() {
        lemma_tbl_map_skip(entries, name, k + 1);
        assert(entries.take(k + 1).drop_last() =~= entries.take(k));
        assert(entries.take(k + 1).last() == entries[k]);
    } else {
        assert(entries.take(k) =~= entries);
    }
}

impl SigTable {
    /// An empty table.
    fn new() -> (t: SigTable)
        ensures
            t@ == Map::<Seq<char>, (nat, bool)>::empty(),
    {
        SigTable { entries: Vec::new() }
    }

    /// Looks the name up; `None` exactly when the table does not know it.
    fn get(&self, name: &String) -> (r: Option<(usize, bool)>)
        ensures
            match r {
                Option::Some(v) => self@.dom().contains(name@) && self@[name@] == (
                    v.0 as nat,
                    v.1,
                ),
                Option::None => !self@.dom().contains(name@),
            },
    {
        let n = self.entries.len();
        let mut k = n;
        while k > 0
            invariant
                k <= n,
                n == self.entries@.len(),
                forall|t: int| k <= t < n ==> (#[trigger] self.entries@[t]).0@ != name@,
            decreases k,
        {
            k = k - 1;
            if self.entries[k].0 == *name {
                proof {
                    lemma_tbl_map_skip(self.entries@, name@, k + 1);
                    assert(self.entries@.take(k + 1).drop_last() =~= self.entries@.take(
                        k as int,
                    ));
                    assert(self.entries@.take(k + 1).last() == self.entries@[k as int]);
                }
                return Option::Some((self.entries[k].1, self.entries[k].2));
            }
        }
        proof {
            lemma_tbl_map_skip(self.entries@, name@, 0);
            assert(self.entries@.take(0) =~= Seq::<(String, usize, bool)>::empty());
        }
        Option::None
    }

    /// Records the name with this arity and body flag, superseding any
    /// earlier record.
    fn set(&mut self, name: &String, arity: usize, has_body: bool)
        ensures
            final(self)@ == old(self)@.insert(name@, (arity as nat, has_body)),
    {
        let ghost before = self.entries@;
        self.entries.push((name.clone(), arity, has_body));
        proof {
            assert(self.entries@.drop_last() =~= before);
        }
    }
}

/// The arity half of a signature map.
pub open spec fn arities(m: Map<Seq<char>, (nat, bool)>) -> Map<Seq<char>, nat> {
    Map::new(|n: Seq<char>| m.dom().contains(n), |n: Seq<char>| m[n].0)
}

/// What one function header does to the signature map: the arity is the
/// header's parameter count, and the body flag becomes and stays true once
/// any declaration of the name brings a body.
pub open spec fn sig_insert(m: Map<Seq<char>, (nat, bool)>, f: AstNode) -> Map<
    Seq<char>,
    (nat, bool),
> {
    match f {
        AstNode::AstNode(name, params, body) => m.insert(
            name@,
            (params@.len(), (m.dom().contains(name@) && m[name@].1) || body is Some),
        ),
    }
}

/// The signature map after all the headers of `fs`, in order, on top of `m`.
pub open spec fn sig_fold(fs: Seq<AstNode>, m: Map<Seq<char>, (nat, bool)>) -> Map<
    Seq<char>,
    (nat, bool),
>
    decreases fs,
{
    if fs.len() == 0 {
        m
    } else {
        sig_fold(fs.drop_first(), sig_insert(m, fs[0]))
    }
}

/// One header is consistent with the map built so far: a known name keeps
/// its arity, and a name whose body has been seen takes no second body.
pub open spec fn sig_head_ok(f: AstNode, m: Map<Seq<char>, (nat, bool)>) -> bool {
    match f {
        AstNode::AstNode(name, params, body) => m.dom().contains(name@) ==> (m[name@].0
            == params@.len() && !(m[name@].1 && body is Some)),
    }
}

/// Every header of `fs` is consistent with the map its predecessors build
/// on top of `m`.
pub open spec fn sig_ok_from(fs: Seq<AstNode>, m: Map<Seq<char>, (nat, bool)>) -> bool
    decreases fs,
{
    if fs.len() == 0 {
        true
    } else {
        sig_head_ok(fs[0], m) && sig_ok_from(fs.drop_first(), sig_insert(m, fs[0]))
    }
}

/// Folding one more function is inserting it into the fold of the rest.
proof fn lemma_sig_fold_push(fs: Seq<AstNode>, f: AstNode, m: Map<Seq<char>, (nat, bool)>)
    ensures
        sig_fold(fs.push(f), m) == sig_insert(sig_fold(fs, m), f),
    decreases fs,
{
    assert(fs.push(f)[0] == if fs.len() == 0 { f } else { fs[0] });
    if fs.len() == 0 {
        let rest = fs.push(f).drop_first();
        assert(rest =~= Seq::<AstNode>::empty());
        assert(sig_fold(rest, sig_insert(m, f)) == sig_insert(m, f));
    } else {
        assert(fs.push(f).drop_first() =~= fs.drop_first().push(f));
        lemma_sig_fold_push(fs.drop_first(), f, sig_insert(m, fs[0]));
    }
}

/// Header consistency of `fs.push(f)` is that of `fs` plus that of `f`
/// against the fold of `fs`.
proof fn lemma_sig_ok_push(fs: Seq<AstNode>, f: AstNode, m: Map<Seq<char>, (nat, bool)>)
    ensures
        sig_ok_from(fs.push(f), m) <==> (sig_ok_from(fs, m) && sig_head_ok(f, sig_fold(fs, m))),
    decreases fs,
{
    assert(fs.push(f)[0] == if fs.len() == 0 { f } else { fs[0] });
    if fs.len() == 0 {
        assert(fs.push(f).drop_first() =~= Seq::<AstNode>::empty());
        assert(sig_ok_from(fs.push(f).drop_first(), sig_insert(m, f)));
    } else {
        assert(fs.push(f).drop_first() =~= fs.drop_first().push(f));
        lemma_sig_ok_push(fs.drop_first(), f, sig_insert(m, fs[0]));
    }
}

/// The functions of a program.
pub open spec fn prog_funs(p: Ast) -> Seq<AstNode> {
    match p {
        Ast::Ast(fs) => fs@,
    }
}

/// The token at `i` is this keyword.
pub open spec fn tok_is_kw(ts: Seq<Token>, i: int, k: Keyword) -> bool {
    0 <= i < ts.len() && (ts[i] matches Token::Keyword(k2) && k2 == k)
}

/// The token at `i` is this punctuator.
pub open spec fn tok_is_punct(ts: Seq<Token>, i: int, p: Punctuator) -> bool {
    0 <= i < ts.len() && (ts[i] matches Token::Punctuator(p2) && p2 == p)
}

/// The token at `i` is this operator.
pub open spec fn tok_is_op(ts: Seq<Token>, i: int, op: Operator) -> bool {
    0 <= i < ts.len() && (ts[i] matches Token::Operator(op2) && op2 == op)
}

/// True when the token at `pos` is this punctuator.
fn peek_is_punct(tokens: &Vec<Token>, pos: usize, p: Punctuator) -> (r: bool)
    ensures
        r == tok_is_punct(tokens@, pos as int, p),
        r ==> pos < tokens@.len() && tokens@.len() <= usize::MAX,
{
    if pos < tokens.len() {
        match &tokens[pos] {
            Token::Punctuator(q) => *q == p,
            _ => false,
        }
    } else {
        false
    }
}

/// True when the token at `pos` is this keyword.
fn peek_is_kw(tokens: &Vec<Token>, pos: usize, k: Keyword) -> (r: bool)
    ensures
        r == tok_is_kw(tokens@, pos as int, k),
        r ==> pos < tokens@.len() && tokens@.len() <= usize::MAX,
{
    if pos < tokens.len() {
        match &tokens[pos] {
            Token::Keyword(q) => *q == k,
            _ => false,
        }
    } else {
        false
    }
}

/// True when the token at `pos` is this operator.
fn peek_is_op(tokens: &Vec<Token>, pos: usize, op: Operator) -> (r: bool)
    ensures
        r == tok_is_op(tokens@, pos as int, op),
        r ==> pos < tokens@.len() && tokens@.len() <= usize::MAX,
{
    if pos < tokens.len() {
        match &tokens[pos] {
            Token::Operator(q) => *q == op,
            _ => false,
        }
    } else {
        false
    }
}

/// The operator at `pos`, if an operator token stands there.
fn get_op_at(tokens: &Vec<Token>, pos: usize) -> (r: Option<Operator>)
    ensures
        match r {
            Option::Some(op) => tok_is_op(tokens@, pos as int, op) && tokens@.len() <= usize::MAX,
            Option::None => !(pos < tokens@.len() && tokens@[pos as int] is Operator),
        },
        r == op_at(tokens@, pos as int),
{
    if pos < tokens.len() {
        match &tokens[pos] {
            Token::Operator(o) => Option::Some(*o),
            _ => Option::None,
        }
    } else {
        Option::None
    }
}

/// Consumes the expected punctuator or reports the offending position.
fn check_punct(tokens: &Vec<Token>, pos: &mut usize, p: Punctuator) -> (r: Result<
    (),
    ParseError,
>)
    requires
        *old(pos) <= tokens@.len(),
    ensures
        *old(pos) <= *final(pos) <= tokens@.len(),
        r is Ok <==> tok_is_punct(tokens@, *old(pos) as int, p),
        r is Ok ==> *final(pos) == *old(pos) + 1,
        r is Err ==> *final(pos) == *old(pos),
        ({
            let sr = sp_tok_punct(tokens@, *old(pos) as int, p);
            match r {
                Result::Ok(_) => sr matches Result::Ok(np) && *final(pos) == np,
                Result::Err(e) => sr matches Result::Err(e2) && e == e2,
            }
        }),
{
    if *pos < tokens.len() {
        match &tokens[*pos] {
            Token::Punctuator(q) => {
                if *q == p {
                    *pos = *pos + 1;
                    Result::Ok(())
                } else {
                    Result::Err(ParseError::UnexpectedToken(*pos))
                }
            },
            _ => Result::Err(ParseError::UnexpectedToken(*pos)),
        }
    } else {
        Result::Err(ParseError::UnexpectedEnd)
    }
}

/// Consumes the expected keyword or reports the offending position.
fn check_kw(tokens: &Vec<Token>, pos: &mut usize, k: Keyword) -> (r: Result<(), ParseError>)
    requires
        *old(pos) <= tokens@.len(),
    ensures
        *old(pos) <= *final(pos) <= tokens@.len(),
        r is Ok <==> tok_is_kw(tokens@, *old(pos) as int, k),
        r is Ok ==> *final(pos) == *old(pos) + 1,
        r is Err ==> *final(pos) == *old(pos),
        ({
            let sr = sp_tok_kw(tokens@, *old(pos) as int, k);
            match r {
                Result::Ok(_) => sr matches Result::Ok(np) && *final(pos) == np,
                Result::Err(e) => sr matches Result::Err(e2) && e == e2,
            }
        }),
{
    if *pos < tokens.len() {
        match &tokens[*pos] {
            Token::Keyword(q) => {
                if *q == k {
                    *pos = *pos + 1;
                    Result::Ok(())
                } else {
                    Result::Err(ParseError::UnexpectedToken(*pos))
                }
            },
            _ => Result::Err(ParseError::UnexpectedToken(*pos)),
        }
    } else {
        Result::Err(ParseError::UnexpectedEnd)
    }
}

/// Consumes an identifier token and hands its name out.
fn expect_ident(tokens: &Vec<Token>, pos: &mut usize) -> (r: Result<String, ParseError>)
    requires
        *old(pos) <= tokens@.len(),
    ensures
        *old(pos) <= *final(pos) <= tokens@.len(),
        r is Ok <==> (*old(pos) < tokens@.len() && tokens@[*old(pos) as int] is Identifier),
        r matches Result::Ok(id) ==> (tokens@[*old(pos) as int] matches Token::Identifier(s)
            && id == s && *final(pos) == *old(pos) + 1),
        ({
            let sr = sp_tok_ident(tokens@, *old(pos) as int);
            match r {
                Result::Ok(id) => sr matches Result::Ok(v) && id == v.0 && *final(pos) == v.1,
                Result::Err(e) => sr matches Result::Err(e2) && e == e2,
            }
        }),
{
    if *pos < tokens.len() {
        match &tokens[*pos] {
            Token::Identifier(s) => {
                let id = s.clone();
                *pos = *pos + 1;
                Result::Ok(id)
            },
            _ => Result::Err(ParseError::UnexpectedToken(*pos)),
        }
    } else {
        Result::Err(ParseError::UnexpectedEnd)
    }
}

/// Parses the whole token sequence into a program.
///
/// The result is exactly what the grammar assigns: it is `Ok` precisely
/// on the token sequences [`sp_parse`] accepts, the returned program has
/// precisely the shape `sp_parse` gives them, and on any other sequence
/// the error is precisely the one `sp_parse` names.
///
/// Whatever comes back `Ok` also satisfies, over the signature map that
/// the program's own headers build up (`sig_fold` from the empty map):
/// every header is consistent with its predecessors — a redeclared name
/// keeps its arity and no name receives two bodies (`sig_ok_from`) — and
/// every call site names a declared function and passes exactly its arity
/// (`prog_calls_ok`). A program that breaks either rule is never returned:
/// the parse fails instead.
pub fn parser(tokens: &Vec<Token>) -> (r: Result<Ast, ParseError>)
    ensures
        r matches Result::Ok(p) ==> sig_ok_from(prog_funs(p), Map::empty()) && prog_calls_ok(
            p,
            arities(sig_fold(prog_funs(p), Map::empty())),
        ),
        tokens@.len() == 0 ==> (r matches Result::Ok(p) && prog_funs(p).len() == 0),
        r matches Result::Ok(p) ==> (prog_funs(p).len() == 0 <==> tokens@.len() == 0),
        (tokens@.len() > 0 && !tok_is_kw(tokens@, 0, Keyword::Int)) ==> r is Err,
        tokens@.len() > 0 ==> (r matches Result::Ok(p) ==> (1 < tokens@.len() && (tokens@[1]
            matches Token::Identifier(s) && prog_funs(p)[0] matches AstNode::AstNode(nm, _, _)
            && nm == s))),
        ({
            match r {
                Result::Ok(p) => sp_parse(tokens@) matches Result::Ok(fs) && view_prog(p) == fs,
                Result::Err(e) => sp_parse(tokens@) matches Result::Err(e2) && e == e2,
            }
        }),
{
    let mut tbl = SigTable::new();
    let mut pos: usize = 0;
    match parser_functions(tokens, &mut pos, &mut tbl) {
        Result::Ok(fs) => Result::Ok(Ast::Ast(fs)),
        Result::Err(e) => Result::Err(e),
    }
}

/// Parses function declarations until the tokens are exhausted.
fn parser_functions(tokens: &Vec<Token>, pos: &mut usize, tbl: &mut SigTable) -> (r: Result<
    Vec<AstNode>,
    ParseError,
>)
    requires
        *old(pos) <= tokens@.len(),
    ensures
        *old(pos) <= *final(pos) <= tokens@.len(),
        r matches Result::Ok(fs) ==> funs_calls_ok(fs@, arities(final(tbl)@)) && final(tbl)@
            == sig_fold(fs@, old(tbl)@) && sig_ok_from(fs@, old(tbl)@),
        *old(pos) >= tokens@.len() ==> (r matches Result::Ok(fs) && fs@.len() == 0),
        (*old(pos) < tokens@.len() && !tok_is_kw(tokens@, *old(pos) as int, Keyword::Int))
            ==> r is Err,
        *old(pos) < tokens@.len() ==> (r matches Result::Ok(fs) ==> (fs@.len() > 0 && *old(pos)
            + 1 < tokens@.len() && (tokens@[*old(pos) as int + 1] matches Token::Identifier(s)
            && fs@[0] matches AstNode::AstNode(nm, _, _) && nm == s))),
        ({
            let sr = sp_functions(tokens@, *old(pos) as int, old(tbl)@);
            &&& final(tbl)@ == sr.1
            &&& match r {
                Result::Ok(fs) => sr.0 matches Result::Ok(v) && view_funs(fs@) == v.0
                    && *final(pos) == v.1,
                Result::Err(e) => sr.0 matches Result::Err(e2) && e == e2,
            }
        }),
    decreases tokens@.len() - *pos, 17int,
{
    let ghost m0 = tbl@;
    let mut funs: Vec<AstNode> = Vec::new();
    proof {
        match sp_functions(tokens@, *pos as int, tbl@).0 {
            Result::Ok(w) => {
                assert(view_funs(funs@) + w.0 =~= w.0);
            },
            Result::Err(_) => {},
        }
    }
    while *pos < tokens.len()
        invariant
            m0 == old(tbl)@,
            *old(pos) <= *pos <= tokens@.len(),
            funs_calls_ok(funs@, arities(tbl@)),
            tbl@ == sig_fold(funs@, m0),
            sig_ok_from(funs@, m0),
            *old(pos) >= tokens@.len() ==> funs@.len() == 0,
            funs@.len() == 0 ==> *pos == *old(pos),
            funs@.len() > 0 ==> tok_is_kw(tokens@, *old(pos) as int, Keyword::Int),
            funs@.len() > 0 ==> (*old(pos) + 1 < tokens@.len() && (tokens@[*old(pos) as int + 1]
                matches Token::Identifier(s) && funs@[0] matches AstNode::AstNode(nm, _, _)
                && nm == s)),
            ({
                let g = sp_functions(tokens@, *old(pos) as int, m0);
                let h = sp_functions(tokens@, *pos as int, tbl@);
                &&& g.1 == h.1
                &&& match g.0 {
                    Result::Ok(v) => h.0 matches Result::Ok(w) && v.0 == view_funs(funs@) + w.0
                        && v.1 == w.1,
                    Result::Err(e) => h.0 matches Result::Err(e2) && e == e2,
                }
            }),
        decreases tokens@.len() - *pos,
    {
        let ghost prev = tbl@;
        let ghost prev_pos = *pos as int;
        let f = match parser_function(tokens, pos, tbl) {
            Result::Ok(f) => f,
            Result::Err(e) => {
                proof {
                    let fr = sp_function(tokens@, prev_pos, prev);
                    let h = sp_functions(tokens@, prev_pos, prev);
                    assert(prev_pos < tokens@.len());
                    assert(fr.0 matches Result::Err(e2) && e == e2);
                    assert(h.0 matches Result::Err(e2) && e == e2);
                    assert(h.1 == fr.1);
                }
                return Result::Err(e);
            },
        };
        proof {
            lemma_view_funs_push(funs@, f);
            match sp_functions(tokens@, *pos as int, tbl@).0 {
                Result::Ok(w) => {
                    assert(view_funs(funs@) + (seq![view_fun(f)] + w.0) =~= view_funs(
                        funs@,
                    ).push(view_fun(f)) + w.0);
                },
                Result::Err(_) => {},
            }
            lemma_sig_fold_push(funs@, f, m0);
            lemma_sig_ok_push(funs@, f, m0);
            assert(arity_extends(arities(prev), arities(tbl@))) by {
                assert forall|nm: Seq<char>| arities(prev).dom().contains(nm) implies #[trigger]
                    arities(tbl@).dom().contains(nm) && arities(tbl@)[nm] == arities(
                    prev,
                )[nm] by {
                    match f {
                        AstNode::AstNode(name, params, body) => {
                            if nm == name@ {
                                assert(prev[nm].0 == params@.len());
                            }
                        },
                    }
                }
            }
            lemma_funs_calls_ok_mono(funs@, arities(prev), arities(tbl@));
            lemma_funs_calls_ok_push(funs@, f, arities(tbl@));
        }
        funs.push(f);
    }
    proof {
        assert(view_funs(funs@) + Seq::<SpFun>::empty() =~= view_funs(funs@));
    }
    Result::Ok(funs)
}

/// Parses one function declaration: header, signature-table check, and
/// either a body block or a prototype's semicolon.
fn parser_function(tokens: &Vec<Token>, pos: &mut usize, tbl: &mut SigTable) -> (r: Result<
    AstNode,
    ParseError,
>)
    requires
        *old(pos) <= tokens@.len(),
    ensures
        *old(pos) <= *final(pos) <= tokens@.len(),
        r matches Result::Ok(f) ==> *final(pos) > *old(pos) && fun_calls_ok(
            f,
            arities(final(tbl)@),
        ) && final(tbl)@ == sig_insert(old(tbl)@, f) && sig_head_ok(f, old(tbl)@),
        !tok_is_kw(tokens@, *old(pos) as int, Keyword::Int) ==> r is Err,
        (tok_is_kw(tokens@, *old(pos) as int, Keyword::Int) && !(*old(pos) + 1 < tokens@.len()
            && tokens@[*old(pos) as int + 1] is Identifier)) ==> r is Err,
        r is Ok ==> (*old(pos) + 1 < tokens@.len() && tokens@[*old(pos) as int + 1]
            is Identifier),
        r matches Result::Ok(f) ==> (tokens@[*old(pos) as int + 1] matches Token::Identifier(s)
            && f matches AstNode::AstNode(nm, _, _) && nm == s),
        ({
            let sr = sp_function(tokens@, *old(pos) as int, old(tbl)@);
            &&& final(tbl)@ == sr.1
            &&& match r {
                Result::Ok(f) => sr.0 matches Result::Ok(v) && view_fun(f) == v.0 && *final(pos)
                    == v.1,
                Result::Err(e) => sr.0 matches Result::Err(e2) && e == e2,
            }
        }),
    decreases tokens@.len() - *pos, 16int,
{
    check_kw(tokens, pos, Keyword::Int)?;
    let id = expect_ident(tokens, pos)?;
    check_punct(tokens, pos, Punctuator::OpenParen)?;
    let params = parser_function_parameters(tokens, pos)?;
    let nparams = params.len();
    let has_body = peek_is_punct(tokens, *pos, Punctuator::OpenBrace);
    match tbl.get(&id) {
        Option::Some((orig_n, orig_b)) => {
            if orig_n != nparams {
                return Result::Err(ParseError::ArityConflict(id));
            }
            if orig_b && has_body {
                return Result::Err(ParseError::Redefinition(id));
            }
            tbl.set(&id, nparams, orig_b || has_body);
        },
        Option::None => {
            tbl.set(&id, nparams, has_body);
        },
    }
    if has_body {
        *pos = *pos + 1;
        let items = parser_items(tokens, pos, tbl)?;
        Result::Ok(AstNode::AstNode(id, params, Option::Some(items)))
    } else if peek_is_punct(tokens, *pos, Punctuator::Semicolon) {
        *pos = *pos + 1;
        Result::Ok(AstNode::AstNode(id, params, Option::None))
    } else if *pos < tokens.len() {
        Result::Err(ParseError::UnexpectedToken(*pos))
    } else {
        Result::Err(ParseError::UnexpectedEnd)
    }
}

/// Parses the parenthesized parameter list after a function's `(`.
fn parser_function_parameters(tokens: &Vec<Token>, pos: &mut usize) -> (r: Result<
    Vec<String>,
    ParseError,
>)
    requires
        *old(pos) <= tokens@.len(),
    ensures
        *old(pos) <= *final(pos) <= tokens@.len(),
        r is Ok ==> *final(pos) > *old(pos),
        tok_is_punct(tokens@, *old(pos) as int, Punctuator::CloseParen) ==> (r matches
        Result::Ok(ps) && ps@.len() == 0 && *final(pos) == *old(pos) + 1),
        (!tok_is_punct(tokens@, *old(pos) as int, Punctuator::CloseParen) && !tok_is_kw(
            tokens@,
            *old(pos) as int,
            Keyword::Int,
        )) ==> r is Err,
        ({
            let sr = sp_function_parameters(tokens@, *old(pos) as int);
            match r {
                Result::Ok(ps) => sr matches Result::Ok(v) && ps@ == v.0 && *final(pos) == v.1,
                Result::Err(e) => sr matches Result::Err(e2) && e == e2,
            }
        }),
    decreases tokens@.len() - *pos, 1int,
{
    let mut params: Vec<String> = Vec::new();
    if peek_is_punct(tokens, *pos, Punctuator::CloseParen) {
        *pos = *pos + 1;
        return Result::Ok(params);
    }
    if *pos >= tokens.len() {
        return Result::Err(ParseError::UnexpectedEnd);
    }
    let first = parser_next_parameter(tokens, pos)?;
    params.push(first);
    proof {
        assert(params@ =~= seq![first]);
    }
    loop
        invariant
            *old(pos) < *pos <= tokens@.len(),
            tok_is_kw(tokens@, *old(pos) as int, Keyword::Int),
            sp_function_parameters(tokens@, *old(pos) as int) == sp_more_parameters(
                tokens@,
                *pos as int,
                params@,
            ),
        decreases tokens@.len() - *pos,
    {
        if peek_is_punct(tokens, *pos, Punctuator::CloseParen) {
            *pos = *pos + 1;
            return Result::Ok(params);
        } else if peek_is_punct(tokens, *pos, Punctuator::Comma) {
            *pos = *pos + 1;
            let p = parser_next_parameter(tokens, pos)?;
            params.push(p);
        } else if *pos < tokens.len() {
            return Result::Err(ParseError::UnexpectedToken(*pos));
        } else {
            return Result::Err(ParseError::UnexpectedEnd);
        }
    }
}

/// Parses one parameter: the integer type keyword and a name.
fn parser_next_parameter(tokens: &Vec<Token>, pos: &mut usize) -> (r: Result<String, ParseError>)
    requires
        *old(pos) <= tokens@.len(),
    ensures
        *old(pos) <= *final(pos) <= tokens@.len(),
        r is Ok ==> *final(pos) > *old(pos),
        r is Ok <==> (tok_is_kw(tokens@, *old(pos) as int, Keyword::Int) && *old(pos) + 1
            < tokens@.len() && tokens@[*old(pos) as int + 1] is Identifier),
        r matches Result::Ok(id) ==> (tokens@[*old(pos) as int + 1] matches Token::Identifier(s)
            && id == s && *final(pos) == *old(pos) + 2),
        ({
            let sr = sp_next_parameter(tokens@, *old(pos) as int);
            match r {
                Result::Ok(id) => sr matches Result::Ok(v) && id == v.0 && *final(pos) == v.1,
                Result::Err(e) => sr matches Result::Err(e2) && e == e2,
            }
        }),
    decreases tokens@.len() - *pos, 0int,
{
    check_kw(tokens, pos, Keyword::Int)?;
    expect_ident(tokens, pos)
}

/// Parses block items up to and including the closing brace.
fn parser_items(tokens: &Vec<Token>, pos: &mut usize, tbl: &SigTable) -> (r: Result<
    Vec<Item>,
    ParseError,
>)
    requires
        *old(pos) <= tokens@.len(),
    ensures
        *old(pos) <= *final(pos) <= tokens@.len(),
        r matches Result::Ok(items) ==> *final(pos) > *old(pos) && items_calls_ok(
            items@,
            arities(tbl@),
        ),
        tok_is_punct(tokens@, *old(pos) as int, Punctuator::CloseBrace) ==> (r matches
        Result::Ok(items) && items@.len() == 0 && *final(pos) == *old(pos) + 1),
        (forall|t: int|
            *old(pos) <= t < tokens@.len() ==> !tok_is_punct(
                tokens@,
                t,
                Punctuator::CloseBrace,
            )) ==> r is Err,
        ({
            let sr = sp_items(tokens@, *old(pos) as int, tbl@);
            match r {
                Result::Ok(items) => sr matches Result::Ok(v) && view_items(items@) == v.0
                    && *final(pos) == v.1,
                Result::Err(e) => sr matches Result::Err(e2) && e == e2,
            }
        }),
    decreases tokens@.len() - *pos, 15int,
{
    let mut block: Vec<Item> = Vec::new();
    proof {
        match sp_items(tokens@, *pos as int, tbl@) {
            Result::Ok(w) => {
                assert(view_items(block@) + w.0 =~= w.0);
            },
            Result::Err(_) => {},
        }
    }
    while !peek_is_punct(tokens, *pos, Punctuator::CloseBrace)
        invariant
            *old(pos) <= *pos <= tokens@.len(),
            items_calls_ok(block@, arities(tbl@)),
            tok_is_punct(tokens@, *old(pos) as int, Punctuator::CloseBrace) ==> (*pos == *old(
                pos,
            ) && block@.len() == 0),
            ({
                let g = sp_items(tokens@, *old(pos) as int, tbl@);
                let h = sp_items(tokens@, *pos as int, tbl@);
                match g {
                    Result::Ok(v) => h matches Result::Ok(w) && v.0 == view_items(block@) + w.0
                        && v.1 == w.1,
                    Result::Err(e) => h matches Result::Err(e2) && e == e2,
                }
            }),
        decreases tokens@.len() - *pos,
    {
        let it = parser_items_item(tokens, pos, tbl)?;
        proof {
            lemma_items_calls_ok_push(block@, it, arities(tbl@));
            lemma_view_items_push(block@, it);
            match sp_items(tokens@, *pos as int, tbl@) {
                Result::Ok(w) => {
                    assert(view_items(block@) + (seq![view_item(it)] + w.0) =~= view_items(
                        block@,
                    ).push(view_item(it)) + w.0);
                },
                Result::Err(_) => {},
            }
        }
        block.push(it);
    }
    proof {
        match sp_items(tokens@, *old(pos) as int, tbl@) {
            Result::Ok(v) => {
                assert(view_items(block@) + Seq::<SpItem>::empty() =~= view_items(block@));
            },
            Result::Err(_) => {},
        }
    }
    check_punct(tokens, pos, Punctuator::CloseBrace)?;
    Result::Ok(block)
}

/// Parses one block item: a declaration where the integer type keyword
/// leads, a statement otherwise.
fn parser_items_item(tokens: &Vec<Token>, pos: &mut usize, tbl: &SigTable) -> (r: Result<
    Item,
    ParseError,
>)
    requires
        *old(pos) <= tokens@.len(),
    ensures
        *old(pos) <= *final(pos) <= tokens@.len(),
        r matches Result::Ok(it) ==> *final(pos) > *old(pos) && item_calls_ok(it, arities(tbl@)),
        tok_is_kw(tokens@, *old(pos) as int, Keyword::Int) ==> (r matches Result::Ok(it) ==> it
            is Declaration),
        !tok_is_kw(tokens@, *old(pos) as int, Keyword::Int) ==> (r matches Result::Ok(it) ==> it
            is Statement),
        ({
            let sr = sp_items_item(tokens@, *old(pos) as int, tbl@);
            match r {
                Result::Ok(it) => sr matches Result::Ok(v) && view_item(it) == v.0 && *final(pos)
                    == v.1,
                Result::Err(e) => sr matches Result::Err(e2) && e == e2,
            }
        }),
    decreases tokens@.len() - *pos, 14int,
{
    if peek_is_kw(tokens, *pos, Keyword::Int) {
        let d = parser_declaration(tokens, pos, tbl)?;
        Result::Ok(Item::Declaration(d))
    } else if *pos < tokens.len() {
        let s = parser_statement(tokens, pos, tbl)?;
        Result::Ok(Item::Statement(s))
    } else {
        Result::Err(ParseError::UnexpectedEnd)
    }
}

/// Parses `int name [= expression] ;`.
fn parser_declaration(tokens: &Vec<Token>, pos: &mut usize, tbl: &SigTable) -> (r: Result<
    Declaration,
    ParseError,
>)
    requires
        *old(pos) <= tokens@.len(),
    ensures
        *old(pos) <= *final(pos) <= tokens@.len(),
        r matches Result::Ok(d) ==> *final(pos) > *old(pos) && decl_calls_ok(d, arities(tbl@)),
        !tok_is_kw(tokens@, *old(pos) as int, Keyword::Int) ==> r is Err,
        r is Ok ==> (*old(pos) + 1 < tokens@.len() && tokens@[*old(pos) as int + 1]
            is Identifier),
        r matches Result::Ok(d) ==> (tokens@[*old(pos) as int + 1] matches Token::Identifier(s)
            && d matches Declaration::Declaration(nm, _) && nm == s),
        (tok_is_kw(tokens@, *old(pos) as int, Keyword::Int) && *old(pos) + 1 < tokens@.len()
            && tokens@[*old(pos) as int + 1] is Identifier && tok_is_punct(
            tokens@,
            *old(pos) as int + 2,
            Punctuator::Semicolon,
        )) ==> (r matches Result::Ok(d) && *final(pos) == *old(pos) + 3 && (tokens@[*old(
            pos,
        ) as int + 1] matches Token::Identifier(s2) && d == Declaration::Declaration(
            s2,
            Option::None,
        ))),
        ({
            let sr = sp_declaration(tokens@, *old(pos) as int, tbl@);
            match r {
                Result::Ok(d) => sr matches Result::Ok(v) && view_decl(d) == v.0 && *final(pos)
                    == v.1,
                Result::Err(e) => sr matches Result::Err(e2) && e == e2,
            }
        }),
    decreases tokens@.len() - *pos, 11int,
{
    check_kw(tokens, pos, Keyword::Int)?;
    let name = expect_ident(tokens, pos)?;
    let init: Option<Expression>;
    if peek_is_op(tokens, *pos, Operator::Assignment) {
        *pos = *pos + 1;
        let e = parser_expression(tokens, pos, tbl)?;
        init = Option::Some(e);
    } else {
        init = Option::None;
    }
    check_punct(tokens, pos, Punctuator::Semicolon)?;
    Result::Ok(Declaration::Declaration(name, init))
}

/// Parses one statement, dispatching on its leading token.
fn parser_statement(tokens: &Vec<Token>, pos: &mut usize, tbl: &SigTable) -> (r: Result<
    Statement,
    ParseError,
>)
    requires
        *old(pos) <= tokens@.len(),
    ensures
        *old(pos) <= *final(pos) <= tokens@.len(),
        r matches Result::Ok(s) ==> *final(pos) > *old(pos) && stmt_calls_ok(s, arities(tbl@)),
        *old(pos) >= tokens@.len() ==> r is Err,
        tok_is_kw(tokens@, *old(pos) as int, Keyword::Break) ==> ((r is Ok <==> tok_is_punct(
            tokens@,
            *old(pos) as int + 1,
            Punctuator::Semicolon,
        )) && (r matches Result::Ok(st) ==> st == Statement::Break && *final(pos) == *old(pos)
            + 2)),
        tok_is_kw(tokens@, *old(pos) as int, Keyword::Continue) ==> ((r is Ok <==> tok_is_punct(
            tokens@,
            *old(pos) as int + 1,
            Punctuator::Semicolon,
        )) && (r matches Result::Ok(st) ==> st == Statement::Continue && *final(pos) == *old(
            pos,
        ) + 2)),
        tok_is_punct(tokens@, *old(pos) as int, Punctuator::Semicolon) ==> (r matches
        Result::Ok(st) && st == Statement::Expression(Option::None) && *final(pos) == *old(pos)
            + 1),
        tok_is_kw(tokens@, *old(pos) as int, Keyword::Return) ==> (r matches Result::Ok(st)
            ==> st is Return),
        tok_is_kw(tokens@, *old(pos) as int, Keyword::If) ==> (r matches Result::Ok(st) ==> st
            is If),
        tok_is_kw(tokens@, *old(pos) as int, Keyword::For) ==> (r matches Result::Ok(st) ==> (st
            is For || st is ForDeclaration)),
        tok_is_kw(tokens@, *old(pos) as int, Keyword::While) ==> (r matches Result::Ok(st)
            ==> st is While),
        tok_is_kw(tokens@, *old(pos) as int, Keyword::Do) ==> (r matches Result::Ok(st) ==> st
            is DoWhile),
        tok_is_punct(tokens@, *old(pos) as int, Punctuator::OpenBrace) ==> (r matches
        Result::Ok(st) ==> st is Compound),
        ({
            let sr = sp_statement(tokens@, *old(pos) as int, tbl@);
            match r {
                Result::Ok(s) => sr matches Result::Ok(v) && view_stmt(s) == v.0 && *final(pos)
                    == v.1,
                Result::Err(e) => sr matches Result::Err(e2) && e == e2,
            }
        }),
    decreases tokens@.len() - *pos, 12int,
{
    if peek_is_kw(tokens, *pos, Keyword::Return) {
        *pos = *pos + 1;
        let e = parser_expression(tokens, pos, tbl)?;
        check_punct(tokens, pos, Punctuator::Semicolon)?;
        Result::Ok(Statement::Return(e))
    } else if peek_is_kw(tokens, *pos, Keyword::If) {
        *pos = *pos + 1;
        parser_if_statement(tokens, pos, tbl)
    } else if peek_is_kw(tokens, *pos, Keyword::For) {
        *pos = *pos + 1;
        parser_for_statement(tokens, pos, tbl)
    } else if peek_is_kw(tokens, *pos, Keyword::While) {
        *pos = *pos + 1;
        parser_while_statement(tokens, pos, tbl)
    } else if peek_is_kw(tokens, *pos, Keyword::Do) {
        *pos = *pos + 1;
        let s = parser_do_statement(tokens, pos, tbl)?;
        check_punct(tokens, pos, Punctuator::Semicolon)?;
        Result::Ok(s)
    } else if peek_is_kw(tokens, *pos, Keyword::Break) {
        *pos = *pos + 1;
        check_punct(tokens, pos, Punctuator::Semicolon)?;
        Result::Ok(Statement::Break)
    } else if peek_is_kw(tokens, *pos, Keyword::Continue) {
        *pos = *pos + 1;
        check_punct(tokens, pos, Punctuator::Semicolon)?;
        Result::Ok(Statement::Continue)
    } else if peek_is_punct(tokens, *pos, Punctuator::OpenBrace) {
        *pos = *pos + 1;
        let items = parser_items(tokens, pos, tbl)?;
        Result::Ok(Statement::Compound(items))
    } else {
        let oe = parser_optional_expression(tokens, pos, Punctuator::Semicolon, tbl)?;
        check_punct(tokens, pos, Punctuator::Semicolon)?;
        Result::Ok(Statement::Expression(oe))
    }
}

/// Parses the remainder of `if ( expression ) statement [else statement]`.
fn parser_if_statement(tokens: &Vec<Token>, pos: &mut usize, tbl: &SigTable) -> (r: Result<
    Statement,
    ParseError,
>)
    requires
        *old(pos) <= tokens@.len(),
    ensures
        *old(pos) <= *final(pos) <= tokens@.len(),
        r matches Result::Ok(s) ==> *final(pos) > *old(pos) && stmt_calls_ok(s, arities(tbl@)),
        !tok_is_punct(tokens@, *old(pos) as int, Punctuator::OpenParen) ==> r is Err,
        r matches Result::Ok(s) ==> s is If,
        ({
            let sr = sp_if_statement(tokens@, *old(pos) as int, tbl@);
            match r {
                Result::Ok(s) => sr matches Result::Ok(v) && view_stmt(s) == v.0 && *final(pos)
                    == v.1,
                Result::Err(e) => sr matches Result::Err(e2) && e == e2,
            }
        }),
    decreases tokens@.len() - *pos, 13int,
{
    check_punct(tokens, pos, Punctuator::OpenParen)?;
    let cond = parser_expression(tokens, pos, tbl)?;
    check_punct(tokens, pos, Punctuator::CloseParen)?;
    let then_s = parser_statement(tokens, pos, tbl)?;
    if peek_is_kw(tokens, *pos, Keyword::Else) {
        *pos = *pos + 1;
        let else_s = parser_statement(tokens, pos, tbl)?;
        Result::Ok(Statement::If(cond, Box::new(then_s), Option::Some(Box::new(else_s))))
    } else {
        Result::Ok(Statement::If(cond, Box::new(then_s), Option::None))
    }
}

/// Parses the remainder of a `for` statement, telling a declaration
/// initializer from an expression initializer by the leading keyword.
fn parser_for_statement(tokens: &Vec<Token>, pos: &mut usize, tbl: &SigTable) -> (r: Result<
    Statement,
    ParseError,
>)
    requires
        *old(pos) <= tokens@.len(),
    ensures
        *old(pos) <= *final(pos) <= tokens@.len(),
        r matches Result::Ok(s) ==> *final(pos) > *old(pos) && stmt_calls_ok(s, arities(tbl@)),
        !tok_is_punct(tokens@, *old(pos) as int, Punctuator::OpenParen) ==> r is Err,
        tok_is_kw(tokens@, *old(pos) as int + 1, Keyword::Int) ==> (r matches Result::Ok(s)
            ==> s is ForDeclaration),
        !tok_is_kw(tokens@, *old(pos) as int + 1, Keyword::Int) ==> (r matches Result::Ok(s)
            ==> s is For),
        ({
            let sr = sp_for_statement(tokens@, *old(pos) as int, tbl@);
            match r {
                Result::Ok(s) => sr matches Result::Ok(v) && view_stmt(s) == v.0 && *final(pos)
                    == v.1,
                Result::Err(e) => sr matches Result::Err(e2) && e == e2,
            }
        }),
    decreases tokens@.len() - *pos, 13int,
{
    check_punct(tokens, pos, Punctuator::OpenParen)?;
    if peek_is_kw(tokens, *pos, Keyword::Int) {
        let init = parser_declaration(tokens, pos, tbl)?;
        let (cond, modifier, body) = parser_for_components(tokens, pos, tbl)?;
        Result::Ok(Statement::ForDeclaration(init, cond, modifier, Box::new(body)))
    } else {
        let init = parser_optional_expression(tokens, pos, Punctuator::Semicolon, tbl)?;
        check_punct(tokens, pos, Punctuator::Semicolon)?;
        let (cond, modifier, body) = parser_for_components(tokens, pos, tbl)?;
        Result::Ok(Statement::For(init, cond, modifier, Box::new(body)))
    }
}

/// Parses a loop's condition, post-expression and body: the part of a
/// `for` head after the initializer's semicolon, and then the body. An
/// absent condition stands for the constant `1`.
fn parser_for_components(tokens: &Vec<Token>, pos: &mut usize, tbl: &SigTable) -> (r: Result<
    (Expression, Option<Expression>, Statement),
    ParseError,
>)
    requires
        *old(pos) <= tokens@.len(),
    ensures
        *old(pos) <= *final(pos) <= tokens@.len(),
        r matches Result::Ok(c) ==> *final(pos) > *old(pos) && expr_calls_ok(c.0, arities(tbl@))
            && opt_expr_calls_ok(c.1, arities(tbl@)) && stmt_calls_ok(c.2, arities(tbl@)),
        tok_is_punct(tokens@, *old(pos) as int, Punctuator::Semicolon) ==> (r matches
        Result::Ok(c) ==> c.0 == Expression::Constant(1)),
        ({
            let sr = sp_for_components(tokens@, *old(pos) as int, tbl@);
            match r {
                Result::Ok(c) => sr matches Result::Ok(v) && view_expr(c.0) == v.0.0
                    && view_opt_expr(c.1) == v.0.1 && view_stmt(c.2) == v.0.2 && *final(pos)
                    == v.1,
                Result::Err(e) => sr matches Result::Err(e2) && e == e2,
            }
        }),
    decreases tokens@.len() - *pos, 13int,
{
    let oc = parser_optional_expression(tokens, pos, Punctuator::Semicolon, tbl)?;
    let cond = match oc {
        Option::Some(e) => e,
        Option::None => Expression::Constant(1),
    };
    check_punct(tokens, pos, Punctuator::Semicolon)?;
    let modifier = parser_optional_expression(tokens, pos, Punctuator::CloseParen, tbl)?;
    check_punct(tokens, pos, Punctuator::CloseParen)?;
    let body = parser_statement(tokens, pos, tbl)?;
    Result::Ok((cond, modifier, body))
}

/// Parses the remainder of `while ( expression ) statement`.
fn parser_while_statement(tokens: &Vec<Token>, pos: &mut usize, tbl: &SigTable) -> (r: Result<
    Statement,
    ParseError,
>)
    requires
        *old(pos) <= tokens@.len(),
    ensures
        *old(pos) <= *final(pos) <= tokens@.len(),
        r matches Result::Ok(s) ==> *final(pos) > *old(pos) && stmt_calls_ok(s, arities(tbl@)),
        !tok_is_punct(tokens@, *old(pos) as int, Punctuator::OpenParen) ==> r is Err,
        r matches Result::Ok(s) ==> s is While,
        ({
            let sr = sp_while_statement(tokens@, *old(pos) as int, tbl@);
            match r {
                Result::Ok(s) => sr matches Result::Ok(v) && view_stmt(s) == v.0 && *final(pos)
                    == v.1,
                Result::Err(e) => sr matches Result::Err(e2) && e == e2,
            }
        }),
    decreases tokens@.len() - *pos, 13int,
{
    check_punct(tokens, pos, Punctuator::OpenParen)?;
    let cond = parser_expression(tokens, pos, tbl)?;
    check_punct(tokens, pos, Punctuator::CloseParen)?;
    let body = parser_statement(tokens, pos, tbl)?;
    Result::Ok(Statement::While(cond, Box::new(body)))
}

/// Parses the remainder of `do statement while ( expression )`; the
/// caller takes the trailing semicolon.
fn parser_do_statement(tokens: &Vec<Token>, pos: &mut usize, tbl: &SigTable) -> (r: Result<
    Statement,
    ParseError,
>)
    requires
        *old(pos) <= tokens@.len(),
    ensures
        *old(pos) <= *final(pos) <= tokens@.len(),
        r matches Result::Ok(s) ==> *final(pos) > *old(pos) && stmt_calls_ok(s, arities(tbl@)),
        r matches Result::Ok(s) ==> s is DoWhile,
        ({
            let sr = sp_do_statement(tokens@, *old(pos) as int, tbl@);
            match r {
                Result::Ok(s) => sr matches Result::Ok(v) && view_stmt(s) == v.0 && *final(pos)
                    == v.1,
                Result::Err(e) => sr matches Result::Err(e2) && e == e2,
            }
        }),
    decreases tokens@.len() - *pos, 13int,
{
    let body = parser_statement(tokens, pos, tbl)?;
    check_kw(tokens, pos, Keyword::While)?;
    check_punct(tokens, pos, Punctuator::OpenParen)?;
    let cond = parser_expression(tokens, pos, tbl)?;
    check_punct(tokens, pos, Punctuator::CloseParen)?;
    Result::Ok(Statement::DoWhile(cond, Box::new(body)))
}

/// Parses an expression unless the delimiting punctuator stands next, in
/// which case nothing is consumed.
fn parser_optional_expression(
    tokens: &Vec<Token>,
    pos: &mut usize,
    expected: Punctuator,
    tbl: &SigTable,
) -> (r: Result<Option<Expression>, ParseError>)
    requires
        *old(pos) <= tokens@.len(),
    ensures
        *old(pos) <= *final(pos) <= tokens@.len(),
        r matches Result::Ok(oe) ==> opt_expr_calls_ok(oe, arities(tbl@)) && (oe is Some
            ==> *final(pos) > *old(pos)) && (oe is None ==> *final(pos) == *old(pos)),
        tok_is_punct(tokens@, *old(pos) as int, expected) ==> (r matches Result::Ok(oe) && oe
            is None),
        (r matches Result::Ok(oe) && oe is None) ==> tok_is_punct(
            tokens@,
            *old(pos) as int,
            expected,
        ),
        ({
            let sr = sp_optional_expression(tokens@, *old(pos) as int, expected, tbl@);
            match r {
                Result::Ok(oe) => sr matches Result::Ok(v) && view_opt_expr(oe) == v.0
                    && *final(pos) == v.1,
                Result::Err(e) => sr matches Result::Err(e2) && e == e2,
            }
        }),
    decreases tokens@.len() - *pos, 10int,
{
    if peek_is_punct(tokens, *pos, expected) {
        Result::Ok(Option::None)
    } else {
        let e = parser_expression(tokens, pos, tbl)?;
        Result::Ok(Option::Some(e))
    }
}

/// Parses a full expression. An identifier followed directly by an
/// assignment operator begins an assignment, whose right-hand side is again
/// a full expression (right-associative); anything else falls through to
/// the conditional level.
fn parser_expression(tokens: &Vec<Token>, pos: &mut usize, tbl: &SigTable) -> (r: Result<
    Expression,
    ParseError,
>)
    requires
        *old(pos) <= tokens@.len(),
    ensures
        *old(pos) <= *final(pos) <= tokens@.len(),
        r matches Result::Ok(e) ==> *final(pos) > *old(pos) && expr_calls_ok(e, arities(tbl@)),
        *old(pos) + 1 < tokens@.len() ==> (tokens@[*old(pos) as int] matches Token::Identifier(
            s,
        ) ==> (tokens@[*old(pos) as int + 1] matches Token::Operator(op2) ==> ((op2
            is Assignment || op2 is AssignPlus || op2 is AssignMinus || op2 is AssignMult || op2
            is AssignDiv || op2 is AssignMod) ==> (r matches Result::Ok(e2) ==> (e2 matches
        Expression::AssignmentOperators(op3, nm, _) && op3 == op2 && nm == s))))),
        ({
            let sr = sp_expression(tokens@, *old(pos) as int, tbl@);
            match r {
                Result::Ok(e) => sr matches Result::Ok(v) && view_expr(e) == v.0 && *final(pos)
                    == v.1,
                Result::Err(er) => sr matches Result::Err(e2) && er == e2,
            }
        }),
    decreases tokens@.len() - *pos, 9int,
{
    let n = tokens.len();
    if *pos < n && n - *pos >= 2 {
        let aid: Option<String> = match &tokens[*pos] {
            Token::Identifier(s) => Option::Some(s.clone()),
            _ => Option::None,
        };
        if let Option::Some(id) = aid {
            if let Option::Some(op) = get_op_at(tokens, *pos + 1) {
                if op.is_assignment_operators() {
                    *pos = *pos + 2;
                    let rhs = parser_expression(tokens, pos, tbl)?;
                    return Result::Ok(
                        Expression::AssignmentOperators(op, id, Box::new(rhs)),
                    );
                }
            }
        }
    }
    parser_conditional_expression(tokens, pos, tbl)
}

/// Parses the ternary conditional level: `cond ? then : else`, where both
/// branches are full expressions.
fn parser_conditional_expression(tokens: &Vec<Token>, pos: &mut usize, tbl: &SigTable) -> (r:
    Result<Expression, ParseError>)
    requires
        *old(pos) <= tokens@.len(),
    ensures
        *old(pos) <= *final(pos) <= tokens@.len(),
        r matches Result::Ok(e) ==> *final(pos) > *old(pos) && expr_calls_ok(e, arities(tbl@)),
        ({
            let sr = sp_conditional(tokens@, *old(pos) as int, tbl@);
            match r {
                Result::Ok(e) => sr matches Result::Ok(v) && view_expr(e) == v.0 && *final(pos)
                    == v.1,
                Result::Err(er) => sr matches Result::Err(e2) && er == e2,
            }
        }),
    decreases tokens@.len() - *pos, 8int,
{
    let mut e = parser_logical_or_expression(tokens, pos, tbl)?;
    while peek_is_punct(tokens, *pos, Punctuator::QuestionMark)
        invariant
            *old(pos) < *pos <= tokens@.len(),
            expr_calls_ok(e, arities(tbl@)),
            sp_conditional(tokens@, *old(pos) as int, tbl@) == sp_more_conditional(
                tokens@,
                *pos as int,
                view_expr(e),
                tbl@,
            ),
        decreases tokens@.len() - *pos,
    {
        *pos = *pos + 1;
        let te = parser_expression(tokens, pos, tbl)?;
        check_punct(tokens, pos, Punctuator::Colon)?;
        let fe = parser_expression(tokens, pos, tbl)?;
        e = Expression::TernaryOperators(Box::new(e), Box::new(te), Box::new(fe));
    }
    Result::Ok(e)
}

/// Parses the logical-OR level; the right operand is a full expression.
fn parser_logical_or_expression(tokens: &Vec<Token>, pos: &mut usize, tbl: &SigTable) -> (r:
    Result<Expression, ParseError>)
    requires
        *old(pos) <= tokens@.len(),
    ensures
        *old(pos) <= *final(pos) <= tokens@.len(),
        r matches Result::Ok(e) ==> *final(pos) > *old(pos) && expr_calls_ok(e, arities(tbl@)),
        ({
            let sr = sp_logical_or(tokens@, *old(pos) as int, tbl@);
            match r {
                Result::Ok(e) => sr matches Result::Ok(v) && view_expr(e) == v.0 && *final(pos)
                    == v.1,
                Result::Err(er) => sr matches Result::Err(e2) && er == e2,
            }
        }),
    decreases tokens@.len() - *pos, 7int,
{
    let mut e = parser_logical_and_expression(tokens, pos, tbl)?;
    while peek_is_op(tokens, *pos, Operator::LogicalOr)
        invariant
            *old(pos) < *pos <= tokens@.len(),
            expr_calls_ok(e, arities(tbl@)),
            sp_logical_or(tokens@, *old(pos) as int, tbl@) == sp_more_logical_or(
                tokens@,
                *pos as int,
                view_expr(e),
                tbl@,
            ),
        decreases tokens@.len() - *pos,
    {
        *pos = *pos + 1;
        let rhs = parser_expression(tokens, pos, tbl)?;
        e = Expression::BinaryOperators(Operator::LogicalOr, Box::new(e), Box::new(rhs));
    }
    Result::Ok(e)
}

/// Parses the logical-AND level; the right operand is a full expression.
fn parser_logical_and_expression(tokens: &Vec<Token>, pos: &mut usize, tbl: &SigTable) -> (r:
    Result<Expression, ParseError>)
    requires
        *old(pos) <= tokens@.len(),
    ensures
        *old(pos) <= *final(pos) <= tokens@.len(),
        r matches Result::Ok(e) ==> *final(pos) > *old(pos) && expr_calls_ok(e, arities(tbl@)),
        ({
            let sr = sp_logical_and(tokens@, *old(pos) as int, tbl@);
            match r {
                Result::Ok(e) => sr matches Result::Ok(v) && view_expr(e) == v.0 && *final(pos)
                    == v.1,
                Result::Err(er) => sr matches Result::Err(e2) && er == e2,
            }
        }),
    decreases tokens@.len() - *pos, 6int,
{
    let mut e = parser_equality_expression(tokens, pos, tbl)?;
    while peek_is_op(tokens, *pos, Operator::LogicalAnd)
        invariant
            *old(pos) < *pos <= tokens@.len(),
            expr_calls_ok(e, arities(tbl@)),
            sp_logical_and(tokens@, *old(pos) as int, tbl@) == sp_more_logical_and(
                tokens@,
                *pos as int,
                view_expr(e),
                tbl@,
            ),
        decreases tokens@.len() - *pos,
    {
        *pos = *pos + 1;
        let rhs = parser_expression(tokens, pos, tbl)?;
        e = Expression::BinaryOperators(Operator::LogicalAnd, Box::new(e), Box::new(rhs));
    }
    Result::Ok(e)
}

/// Parses the equality level (`==`, `!=`); the right operand is a full
/// expression.
fn parser_equality_expression(tokens: &Vec<Token>, pos: &mut usize, tbl: &SigTable) -> (r: Result<
    Expression,
    ParseError,
>)
    requires
        *old(pos) <= tokens@.len(),
    ensures
        *old(pos) <= *final(pos) <= tokens@.len(),
        r matches Result::Ok(e) ==> *final(pos) > *old(pos) && expr_calls_ok(e, arities(tbl@)),
        ({
            let sr = sp_equality(tokens@, *old(pos) as int, tbl@);
            match r {
                Result::Ok(e) => sr matches Result::Ok(v) && view_expr(e) == v.0 && *final(pos)
                    == v.1,
                Result::Err(er) => sr matches Result::Err(e2) && er == e2,
            }
        }),
    decreases tokens@.len() - *pos, 5int,
{
    let mut e = parser_relational_expression(tokens, pos, tbl)?;
    loop
        invariant
            *old(pos) < *pos <= tokens@.len(),
            expr_calls_ok(e, arities(tbl@)),
            sp_equality(tokens@, *old(pos) as int, tbl@) == sp_more_equality(
                tokens@,
                *pos as int,
                view_expr(e),
                tbl@,
            ),
        ensures
            *old(pos) < *pos <= tokens@.len(),
            expr_calls_ok(e, arities(tbl@)),
            ({
                let sr = sp_equality(tokens@, *old(pos) as int, tbl@);
                sr matches Result::Ok(v) && v.0 == view_expr(e) && v.1 == *pos as int
            }),
        decreases tokens@.len() - *pos,
    {
        match get_op_at(tokens, *pos) {
            Option::Some(op) => {
                if op == Operator::Equal || op == Operator::NotEqual {
                    *pos = *pos + 1;
                    let rhs = parser_expression(tokens, pos, tbl)?;
                    e = Expression::BinaryOperators(op, Box::new(e), Box::new(rhs));
                } else {
                    break ;
                }
            },
            Option::None => {
                break ;
            },
        }
    }
    Result::Ok(e)
}

/// Parses the relational level (`<`, `<=`, `>`, `>=`); the right operand is
/// a full expression.
fn parser_relational_expression(tokens: &Vec<Token>, pos: &mut usize, tbl: &SigTable) -> (r:
    Result<Expression, ParseError>)
    requires
        *old(pos) <= tokens@.len(),
    ensures
        *old(pos) <= *final(pos) <= tokens@.len(),
        r matches Result::Ok(e) ==> *final(pos) > *old(pos) && expr_calls_ok(e, arities(tbl@)),
        ({
            let sr = sp_relational(tokens@, *old(pos) as int, tbl@);
            match r {
                Result::Ok(e) => sr matches Result::Ok(v) && view_expr(e) == v.0 && *final(pos)
                    == v.1,
                Result::Err(er) => sr matches Result::Err(e2) && er == e2,
            }
        }),
    decreases tokens@.len() - *pos, 4int,
{
    let mut e = parser_bitwise_expression(tokens, pos, tbl)?;
    loop
        invariant
            *old(pos) < *pos <= tokens@.len(),
            expr_calls_ok(e, arities(tbl@)),
            sp_relational(tokens@, *old(pos) as int, tbl@) == sp_more_relational(
                tokens@,
                *pos as int,
                view_expr(e),
                tbl@,
            ),
        ensures
            *old(pos) < *pos <= tokens@.len(),
            expr_calls_ok(e, arities(tbl@)),
            ({
                let sr = sp_relational(tokens@, *old(pos) as int, tbl@);
                sr matches Result::Ok(v) && v.0 == view_expr(e) && v.1 == *pos as int
            }),
        decreases tokens@.len() - *pos,
    {
        match get_op_at(tokens, *pos) {
            Option::Some(op) => {
                if op == Operator::LessThan || op == Operator::LessThanOrEqual || op
                    == Operator::GreaterThan || op == Operator::GreaterThanOrEqual {
                    *pos = *pos + 1;
                    let rhs = parser_expression(tokens, pos, tbl)?;
                    e = Expression::BinaryOperators(op, Box::new(e), Box::new(rhs));
                } else {
                    break ;
                }
            },
            Option::None => {
                break ;
            },
        }
    }
    Result::Ok(e)
}

/// Parses the bitwise level (`& | ^ << >>`, grouped at one precedence); the
/// right operand is a full expression.
fn parser_bitwise_expression(tokens: &Vec<Token>, pos: &mut usize, tbl: &SigTable) -> (r: Result<
    Expression,
    ParseError,
>)
    requires
        *old(pos) <= tokens@.len(),
    ensures
        *old(pos) <= *final(pos) <= tokens@.len(),
        r matches Result::Ok(e) ==> *final(pos) > *old(pos) && expr_calls_ok(e, arities(tbl@)),
        ({
            let sr = sp_bitwise(tokens@, *old(pos) as int, tbl@);
            match r {
                Result::Ok(e) => sr matches Result::Ok(v) && view_expr(e) == v.0 && *final(pos)
                    == v.1,
                Result::Err(er) => sr matches Result::Err(e2) && er == e2,
            }
        }),
    decreases tokens@.len() - *pos, 3int,
{
    let mut e = parser_additive_expression(tokens, pos, tbl)?;
    loop
        invariant
            *old(pos) < *pos <= tokens@.len(),
            expr_calls_ok(e, arities(tbl@)),
            sp_bitwise(tokens@, *old(pos) as int, tbl@) == sp_more_bitwise(
                tokens@,
                *pos as int,
                view_expr(e),
                tbl@,
            ),
        ensures
            *old(pos) < *pos <= tokens@.len(),
            expr_calls_ok(e, arities(tbl@)),
            ({
                let sr = sp_bitwise(tokens@, *old(pos) as int, tbl@);
                sr matches Result::Ok(v) && v.0 == view_expr(e) && v.1 == *pos as int
            }),
        decreases tokens@.len() - *pos,
    {
        match get_op_at(tokens, *pos) {
            Option::Some(op) => {
                if op.is_bitwise_operators() {
                    *pos = *pos + 1;
                    let rhs = parser_expression(tokens, pos, tbl)?;
                    e = Expression::BinaryOperators(op, Box::new(e), Box::new(rhs));
                } else {
                    break ;
                }
            },
            Option::None => {
                break ;
            },
        }
    }
    Result::Ok(e)
}

/// Parses the additive level (`+`, `-`), binding left-to-right.
fn parser_additive_expression(tokens: &Vec<Token>, pos: &mut usize, tbl: &SigTable) -> (r: Result<
    Expression,
    ParseError,
>)
    requires
        *old(pos) <= tokens@.len(),
    ensures
        *old(pos) <= *final(pos) <= tokens@.len(),
        r matches Result::Ok(e) ==> *final(pos) > *old(pos) && expr_calls_ok(e, arities(tbl@)),
        ({
            let sr = sp_additive(tokens@, *old(pos) as int, tbl@);
            match r {
                Result::Ok(e) => sr matches Result::Ok(v) && view_expr(e) == v.0 && *final(pos)
                    == v.1,
                Result::Err(er) => sr matches Result::Err(e2) && er == e2,
            }
        }),
    decreases tokens@.len() - *pos, 2int,
{
    let mut e = parser_term(tokens, pos, tbl)?;
    loop
        invariant
            *old(pos) < *pos <= tokens@.len(),
            expr_calls_ok(e, arities(tbl@)),
            sp_additive(tokens@, *old(pos) as int, tbl@) == sp_more_additive(
                tokens@,
                *pos as int,
                view_expr(e),
                tbl@,
            ),
        ensures
            *old(pos) < *pos <= tokens@.len(),
            expr_calls_ok(e, arities(tbl@)),
            ({
                let sr = sp_additive(tokens@, *old(pos) as int, tbl@);
                sr matches Result::Ok(v) && v.0 == view_expr(e) && v.1 == *pos as int
            }),
        decreases tokens@.len() - *pos,
    {
        match get_op_at(tokens, *pos) {
            Option::Some(op) => {
                if op == Operator::Plus || op == Operator::Minus {
                    *pos = *pos + 1;
                    let rhs = parser_term(tokens, pos, tbl)?;
                    e = Expression::BinaryOperators(op, Box::new(e), Box::new(rhs));
                } else {
                    break ;
                }
            },
            Option::None => {
                break ;
            },
        }
    }
    Result::Ok(e)
}

/// Parses the multiplicative level (`*`, `/`, `%`), binding left-to-right.
fn parser_term(tokens: &Vec<Token>, pos: &mut usize, tbl: &SigTable) -> (r: Result<
    Expression,
    ParseError,
>)
    requires
        *old(pos) <= tokens@.len(),
    ensures
        *old(pos) <= *final(pos) <= tokens@.len(),
        r matches Result::Ok(e) ==> *final(pos) > *old(pos) && expr_calls_ok(e, arities(tbl@)),
        ({
            let sr = sp_term(tokens@, *old(pos) as int, tbl@);
            match r {
                Result::Ok(e) => sr matches Result::Ok(v) && view_expr(e) == v.0 && *final(pos)
                    == v.1,
                Result::Err(er) => sr matches Result::Err(e2) && er == e2,
            }
        }),
    decreases tokens@.len() - *pos, 1int,
{
    let mut e = parser_factor(tokens, pos, tbl)?;
    loop
        invariant
            *old(pos) < *pos <= tokens@.len(),
            expr_calls_ok(e, arities(tbl@)),
            sp_term(tokens@, *old(pos) as int, tbl@) == sp_more_term(
                tokens@,
                *pos as int,
                view_expr(e),
                tbl@,
            ),
        ensures
            *old(pos) < *pos <= tokens@.len(),
            expr_calls_ok(e, arities(tbl@)),
            ({
                let sr = sp_term(tokens@, *old(pos) as int, tbl@);
                sr matches Result::Ok(v) && v.0 == view_expr(e) && v.1 == *pos as int
            }),
        decreases tokens@.len() - *pos,
    {
        match get_op_at(tokens, *pos) {
            Option::Some(op) => {
                if op == Operator::Multiplication || op == Operator::Division || op
                    == Operator::Modulo {
                    *pos = *pos + 1;
                    let rhs = parser_factor(tokens, pos, tbl)?;
                    e = Expression::BinaryOperators(op, Box::new(e), Box::new(rhs));
                } else {
                    break ;
                }
            },
            Option::None => {
                break ;
            },
        }
    }
    Result::Ok(e)
}

/// Parses a factor: a parenthesized expression, a unary operator applied to
/// a factor, a constant, a variable, or a call. A call must name a function
/// the signature table knows, with exactly the recorded arity.
fn parser_factor(tokens: &Vec<Token>, pos: &mut usize, tbl: &SigTable) -> (r: Result<
    Expression,
    ParseError,
>)
    requires
        *old(pos) <= tokens@.len(),
    ensures
        *old(pos) <= *final(pos) <= tokens@.len(),
        r matches Result::Ok(e) ==> *final(pos) > *old(pos) && expr_calls_ok(e, arities(tbl@)),
        *old(pos) >= tokens@.len() ==> (r matches Result::Err(e2) && e2
            == ParseError::UnexpectedEnd),
        *old(pos) < tokens@.len() ==> (tokens@[*old(pos) as int] is Keyword ==> r is Err),
        *old(pos) < tokens@.len() ==> (tokens@[*old(pos) as int] matches Token::Constant(cv)
            ==> (r matches Result::Ok(e2) && e2 == Expression::Constant(cv) && *final(pos)
            == *old(pos) + 1)),
        *old(pos) < tokens@.len() ==> (tokens@[*old(pos) as int] matches Token::Identifier(s)
            ==> (!tok_is_punct(tokens@, *old(pos) as int + 1, Punctuator::OpenParen) ==> (r
        matches Result::Ok(e2) && e2 == Expression::Variable(s) && *final(pos) == *old(pos)
            + 1))),
        *old(pos) < tokens@.len() ==> (tokens@[*old(pos) as int] matches Token::Operator(o2)
            ==> (!(o2 is Minus || o2 is LogicalNegation) ==> r is Err)),
        *old(pos) < tokens@.len() ==> (tokens@[*old(pos) as int] matches Token::Identifier(s)
            ==> ((tok_is_punct(tokens@, *old(pos) as int + 1, Punctuator::OpenParen)
            && !tbl@.dom().contains(s@)) ==> r is Err)),
        ({
            let sr = sp_factor(tokens@, *old(pos) as int, tbl@);
            match r {
                Result::Ok(e) => sr matches Result::Ok(v) && view_expr(e) == v.0 && *final(pos)
                    == v.1,
                Result::Err(er) => sr matches Result::Err(e2) && er == e2,
            }
        }),
    decreases tokens@.len() - *pos, 0int,
{
    if *pos >= tokens.len() {
        return Result::Err(ParseError::UnexpectedEnd);
    }
    match &tokens[*pos] {
        Token::Punctuator(p) => {
            if *p == Punctuator::OpenParen {
                *pos = *pos + 1;
                let e = parser_expression(tokens, pos, tbl)?;
                check_punct(tokens, pos, Punctuator::CloseParen)?;
                Result::Ok(e)
            } else {
                Result::Err(ParseError::UnexpectedToken(*pos))
            }
        },
        Token::Operator(op) => {
            let o = *op;
            if o.is_unary() {
                *pos = *pos + 1;
                let f = parser_factor(tokens, pos, tbl)?;
                Result::Ok(Expression::UnaryOperators(o, Box::new(f)))
            } else {
                Result::Err(ParseError::UnexpectedToken(*pos))
            }
        },
        Token::Constant(c) => {
            let v = *c;
            *pos = *pos + 1;
            Result::Ok(Expression::Constant(v))
        },
        Token::Identifier(s) => {
            let id = s.clone();
            if peek_is_punct(tokens, *pos + 1, Punctuator::OpenParen) {
                *pos = *pos + 2;
                let args = parser_function_call(tokens, pos, tbl)?;
                proof {
                    lemma_view_exprs_len(args@);
                }
                match tbl.get(&id) {
                    Option::Some((expected_nargs, _)) => {
                        if args.len() == expected_nargs {
                            proof {
                                assert(arities(tbl@).dom().contains(id@));
                                assert(arities(tbl@)[id@] == tbl@[id@].0);
                            }
                            Result::Ok(Expression::FunctionCalls(id, args))
                        } else {
                            Result::Err(ParseError::WrongArgumentCount(id))
                        }
                    },
                    Option::None => Result::Err(ParseError::UndeclaredFunction(id)),
                }
            } else {
                *pos = *pos + 1;
                Result::Ok(Expression::Variable(id))
            }
        },
        Token::Keyword(_) => Result::Err(ParseError::UnexpectedToken(*pos)),
    }
}

/// Parses a call's argument list after its `(`.
fn parser_function_call(tokens: &Vec<Token>, pos: &mut usize, tbl: &SigTable) -> (r: Result<
    Vec<Expression>,
    ParseError,
>)
    requires
        *old(pos) <= tokens@.len(),
    ensures
        *old(pos) <= *final(pos) <= tokens@.len(),
        r matches Result::Ok(args) ==> *final(pos) > *old(pos) && exprs_calls_ok(
            args@,
            arities(tbl@),
        ),
        tok_is_punct(tokens@, *old(pos) as int, Punctuator::CloseParen) ==> (r matches
        Result::Ok(args) && args@.len() == 0 && *final(pos) == *old(pos) + 1),
        ({
            let sr = sp_call_arguments(tokens@, *old(pos) as int, tbl@);
            match r {
                Result::Ok(args) => sr matches Result::Ok(v) && view_exprs(args@) == v.0
                    && *final(pos) == v.1,
                Result::Err(e) => sr matches Result::Err(e2) && e == e2,
            }
        }),
    decreases tokens@.len() - *pos, 10int,
{
    let mut args: Vec<Expression> = Vec::new();
    if peek_is_punct(tokens, *pos, Punctuator::CloseParen) {
        *pos = *pos + 1;
        return Result::Ok(args);
    }
    if *pos >= tokens.len() {
        return Result::Err(ParseError::UnexpectedEnd);
    }
    let first = parser_expression(tokens, pos, tbl)?;
    proof {
        lemma_exprs_calls_ok_push(args@, first, arities(tbl@));
        lemma_view_exprs_push(args@, first);
        assert(view_exprs(args@).push(view_expr(first)) =~= seq![view_expr(first)]);
    }
    args.push(first);
    loop
        invariant
            *old(pos) < *pos <= tokens@.len(),
            exprs_calls_ok(args@, arities(tbl@)),
            !tok_is_punct(tokens@, *old(pos) as int, Punctuator::CloseParen),
            sp_call_arguments(tokens@, *old(pos) as int, tbl@) == sp_more_arguments(
                tokens@,
                *pos as int,
                view_exprs(args@),
                tbl@,
            ),
        decreases tokens@.len() - *pos,
    {
        if peek_is_punct(tokens, *pos, Punctuator::CloseParen) {
            *pos = *pos + 1;
            return Result::Ok(args);
        } else if peek_is_punct(tokens, *pos, Punctuator::Comma) {
            *pos = *pos + 1;
            let a = parser_expression(tokens, pos, tbl)?;
            proof {
                lemma_exprs_calls_ok_push(args@, a, arities(tbl@));
                lemma_view_exprs_push(args@, a);
            }
            args.push(a);
        } else if *pos < tokens.len() {
            return Result::Err(ParseError::UnexpectedToken(*pos));
        } else {
            return Result::Err(ParseError::UnexpectedEnd);
        }
    }
}

} // verus!
