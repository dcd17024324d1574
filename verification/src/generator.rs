//! Tree-walking code generation: lowers the AST into a sequence of
//! [`AsmLine`]s, using the [`Context`] for name resolution and a caller-held
//! monotonic counter for unique control-flow labels.
//!
//! Contracts come in two halves. The label half: every chunk a generator
//! function emits is closed (`chunk_ok`) over the serials it drew — its
//! labels are fresh, defined at most once, and every jump lands on a label
//! of the chunk or on the enclosing loop's break or continue target — which
//! composes into the whole program having no unresolved and no doubly
//! defined labels. The behavior half: the spec functions `sp_expr`,
//! `sp_stmt`, `sp_items` and `sp_prog` state, for every input, exactly
//! which error lowering stops with — an undeclared variable, a duplicate
//! declaration in one block, `break` or `continue` outside a loop, an
//! operator outside its position, or an exhausted frame or counter — and
//! how far the label counter moves; and their `_lines` companions
//! (`sp_expr_lines` through `sp_prog_lines`) state the exact instruction
//! sequence a successful lowering emits, down to each frame offset and
//! label. Each generator function returns, moves the counter, and emits
//! exactly what its spec functions say.

use vstd::prelude::*;
use crate::assembly::{
    AsmLine, LabelId, LabelKind, def_label, jump_target, def_count, defines, chunk_ok,
    label_range, lemma_def_count_concat, lemma_def_pos, lemma_def_count_none, lemma_chunk_empty,
    lemma_chunk_plain, lemma_chunk_jump, lemma_chunk_def, lemma_chunk_join, lemma_chunk_widen,
    lemma_chunk_resolve, spec_digits, u64_text,
};
use crate::ast::{Ast, AstNode, Item, Declaration, Statement, Expression};
use vstd::string::*;
use crate::context::{Context, SpecCtx, vm_get, scope_has, scope_contains, params_map};
use crate::token::Operator;

verus! {

/// Why generation failed.
#[derive(Debug, Clone, PartialEq)]
pub enum GenError {
    /// An expression reads or assigns a name with no live declaration.
    UndeclaredVariable(String),
    /// A block declares the same name twice.
    DuplicateDeclaration(String),
    /// `break` stands outside any loop.
    BreakOutsideLoop,
    /// `continue` stands outside any loop.
    ContinueOutsideLoop,
    /// The tree holds an operator in a position the language does not
    /// give it (an assignment operator as a binary operator, say).
    UnsupportedOperator,
    /// Stack-frame offsets ran out of the representable range.
    FrameOverflow,
    /// The label counter ran out.
    LabelOverflow,
}

/// The mathematical shape of a generation error: names as character
/// sequences.
pub enum SpecGenError {
    UndeclaredVariable(Seq<char>),
    DuplicateDeclaration(Seq<char>),
    BreakOutsideLoop,
    ContinueOutsideLoop,
    UnsupportedOperator,
    FrameOverflow,
    LabelOverflow,
}

impl View for GenError {
    type V = SpecGenError;

    open spec fn view(&self) -> SpecGenError {
        match self {
            GenError::UndeclaredVariable(n) => SpecGenError::UndeclaredVariable(n@),
            GenError::DuplicateDeclaration(n) => SpecGenError::DuplicateDeclaration(n@),
            GenError::BreakOutsideLoop => SpecGenError::BreakOutsideLoop,
            GenError::ContinueOutsideLoop => SpecGenError::ContinueOutsideLoop,
            GenError::UnsupportedOperator => SpecGenError::UnsupportedOperator,
            GenError::FrameOverflow => SpecGenError::FrameOverflow,
            GenError::LabelOverflow => SpecGenError::LabelOverflow,
        }
    }
}

/// The operators accepted in unary position by the generator.
pub open spec fn sp_unop_ok(op: Operator) -> bool {
    op is Minus || op is LogicalNegation
}

/// The operators accepted on an assignment.
pub open spec fn sp_assign_ok(op: Operator) -> bool {
    op is Assignment || op is AssignPlus || op is AssignMinus || op is AssignMult
        || op is AssignDiv || op is AssignMod
}

/// The operators accepted as binary operators.
pub open spec fn sp_bin_ok(op: Operator) -> bool {
    op is Plus || op is Minus || op is Multiplication || op is Division || op is Modulo
        || op is Equal || op is NotEqual || op is LessThan || op is LessThanOrEqual
        || op is GreaterThan || op is GreaterThanOrEqual || op is LogicalOr || op is LogicalAnd
        || op is BitwiseAnd || op is BitwiseOr || op is BitwiseXor || op is BitwiseShiftLeft
        || op is BitwiseShiftRight
}

/// What lowering an expression does besides emitting code: the error it
/// stops with, if any, and where the label counter stands afterwards.
/// Operands are lowered right before left; a call's arguments are lowered
/// right to left; a ternary draws one serial for its two labels.
pub open spec fn sp_expr(e: Expression, vars: Map<Seq<char>, int>, k: int) -> (
    Option<SpecGenError>,
    int,
)
    decreases e,
{
    match e {
        Expression::Constant(_) => (Option::None, k),
        Expression::Variable(name) => {
            if vars.dom().contains(name@) {
                (Option::None, k)
            } else {
                (Option::Some(SpecGenError::UndeclaredVariable(name@)), k)
            }
        },
        Expression::UnaryOperators(op, inner) => {
            let (ge, k1) = sp_expr(*inner, vars, k);
            if ge is Some {
                (ge, k1)
            } else if sp_unop_ok(op) {
                (Option::None, k1)
            } else {
                (Option::Some(SpecGenError::UnsupportedOperator), k1)
            }
        },
        Expression::AssignmentOperators(op, name, rhs) => {
            let (ge, k1) = sp_expr(*rhs, vars, k);
            if ge is Some {
                (ge, k1)
            } else if !vars.dom().contains(name@) {
                (Option::Some(SpecGenError::UndeclaredVariable(name@)), k1)
            } else if sp_assign_ok(op) {
                (Option::None, k1)
            } else {
                (Option::Some(SpecGenError::UnsupportedOperator), k1)
            }
        },
        Expression::BinaryOperators(op, lhs, rhs) => {
            let (ge, k1) = sp_expr(*rhs, vars, k);
            if ge is Some {
                (ge, k1)
            } else {
                let (ge2, k2) = sp_expr(*lhs, vars, k1);
                if ge2 is Some {
                    (ge2, k2)
                } else if sp_bin_ok(op) {
                    (Option::None, k2)
                } else {
                    (Option::Some(SpecGenError::UnsupportedOperator), k2)
                }
            }
        },
        Expression::TernaryOperators(cond, te, fe) => {
            let (ge, k1) = sp_expr(*cond, vars, k);
            if ge is Some {
                (ge, k1)
            } else if k1 == u64::MAX {
                (Option::Some(SpecGenError::LabelOverflow), k1)
            } else {
                let (ge2, k2) = sp_expr(*te, vars, k1 + 1);
                if ge2 is Some {
                    (ge2, k2)
                } else {
                    sp_expr(*fe, vars, k2)
                }
            }
        },
        Expression::FunctionCalls(_, args) => {
            let (ge, k1) = sp_exprs_rev(args@, vars, k);
            if ge is Some {
                (ge, k1)
            } else if args@.len() > (u64::MAX as int) / 8 {
                (Option::Some(SpecGenError::FrameOverflow), k1)
            } else {
                (Option::None, k1)
            }
        },
    }
}

/// Lowering a sequence of expressions from the last to the first.
pub open spec fn sp_exprs_rev(es: Seq<Expression>, vars: Map<Seq<char>, int>, k: int) -> (
    Option<SpecGenError>,
    int,
)
    decreases es,
{
    if es.len() == 0 {
        (Option::None, k)
    } else {
        let (ge, k1) = sp_expr(es.last(), vars, k);
        if ge is Some {
            (ge, k1)
        } else {
            sp_exprs_rev(es.drop_last(), vars, k1)
        }
    }
}

/// `post` continues `pre`: nothing already emitted is touched.
pub open spec fn extends_out(pre: Seq<AsmLine>, post: Seq<AsmLine>) -> bool {
    pre.len() <= post.len() && forall|i: int| 0 <= i < pre.len() ==> post[i] == #[trigger] pre[i]
}

/// What was emitted between two snapshots of the output.
pub open spec fn emitted(pre: Seq<AsmLine>, post: Seq<AsmLine>) -> Seq<AsmLine> {
    post.skip(pre.len() as int)
}

/// Extension is transitive, and the emitted pieces concatenate.
pub proof fn lemma_emit_trans(a: Seq<AsmLine>, b: Seq<AsmLine>, c: Seq<AsmLine>)
    requires
        extends_out(a, b),
        extends_out(b, c),
    ensures
        extends_out(a, c),
        emitted(a, c) =~= emitted(a, b) + emitted(b, c),
{
    assert forall|i: int| 0 <= i < c.len() - a.len() implies emitted(a, c)[i] == (emitted(a, b)
        + emitted(b, c))[i] by {
        if i < b.len() - a.len() {
            assert(c[a.len() + i] == b[a.len() + i]);
        }
    }
}

/// Pushing one line extends the output by exactly that line.
pub proof fn lemma_emit_push(b: Seq<AsmLine>, l: AsmLine)
    ensures
        extends_out(b, b.push(l)),
        emitted(b, b.push(l)) =~= seq![l],
{
}

/// Nothing emitted: the output stands as it was.
pub proof fn lemma_emit_refl(b: Seq<AsmLine>)
    ensures
        extends_out(b, b),
        emitted(b, b) =~= Seq::<AsmLine>::empty(),
{
}

/// Draws a fresh label serial, advancing the counter.
fn fresh_serial(counter: &mut u64) -> (r: Result<u64, GenError>)
    ensures
        match r {
            Result::Ok(s) => *old(counter) < u64::MAX && s == *old(counter) && *final(counter)
                == *old(counter) + 1,
            Result::Err(e) => *old(counter) == u64::MAX && e == GenError::LabelOverflow
                && *final(counter) == *old(counter),
        },
{
    if *counter == u64::MAX {
        Result::Err(GenError::LabelOverflow)
    } else {
        let s = *counter;
        *counter = *counter + 1;
        Result::Ok(s)
    }
}

/// Extends a closed chunk by lines that neither define labels nor jump.
proof fn lemma_chunk_plain_suffix(
    b0: Seq<AsmLine>,
    b1: Seq<AsmLine>,
    b2: Seq<AsmLine>,
    d: Set<LabelId>,
)
    requires
        extends_out(b0, b1),
        extends_out(b1, b2),
        chunk_ok(emitted(b0, b1), d, Set::empty()),
        forall|i: int|
            b1.len() <= i < b2.len() ==> def_label(#[trigger] b2[i]) is None && jump_target(
                b2[i],
            ) is None,
    ensures
        extends_out(b0, b2),
        chunk_ok(emitted(b0, b2), d, Set::empty()),
{
    lemma_emit_trans(b0, b1, b2);
    let tail = emitted(b1, b2);
    assert(chunk_ok(tail, Set::<LabelId>::empty(), Set::<LabelId>::empty())) by {
        assert forall|i: int|
            0 <= i < tail.len() implies def_label(#[trigger] tail[i]) is None && jump_target(
            tail[i],
        ) is None by {
            assert(tail[i] == b2[b1.len() + i]);
        }
        assert forall|id: LabelId| #[trigger] def_count(tail, id) <= 1 by {
            lemma_def_count_none(tail, id);
        }
    }
    lemma_chunk_join(emitted(b0, b1), tail, d, Set::empty(), Set::empty());
    assert(d.union(Set::empty()) =~= d);
}

/// Lowers one expression, leaving its value in the accumulator register.
///
/// The chunk this emits is label-closed over the serials drawn during the
/// call, with no outside targets: every jump a ternary emits lands on a
/// label of the same chunk. The result and the counter movement are
/// exactly `sp_expr` of the expression over the context's live names.
#[verifier::rlimit(100)]
#[verifier::spinoff_prover]
pub fn generate_expression(
    e: &Expression,
    context: &Context,
    counter: &mut u64,
    out: &mut Vec<AsmLine>,
) -> (r: Result<(), GenError>)
    ensures
        extends_out(old(out)@, final(out)@),
        *old(counter) <= *final(counter),
        ({
            let (ge, k1) = sp_expr(*e, context@.vars, *old(counter) as int);
            &&& *final(counter) as int == k1
            &&& match r {
                Result::Ok(_) => ge is None,
                Result::Err(err) => ge == Option::Some(err@),
            }
        }),
        r is Ok ==> chunk_ok(
            emitted(old(out)@, final(out)@),
            label_range(*old(counter) as int, *final(counter) as int),
            Set::empty(),
        ),
        r is Ok ==> emitted(old(out)@, final(out)@) =~= sp_expr_lines(
            *e,
            context@.vars,
            *old(counter) as int,
        ),
    decreases *e, 1int,
{
    let ghost b0 = out@;
    let ghost k0 = *counter as int;
    match e {
        Expression::Constant(v) => {
            out.push(AsmLine::MovImm(*v));
            proof {
                lemma_emit_push(b0, AsmLine::MovImm(*v));
                lemma_chunk_plain(AsmLine::MovImm(*v), label_range(k0, k0), Set::empty());
            }
            Result::Ok(())
        },
        Expression::Variable(name) => {
            match vm_get(&context.var_map, name) {
                Option::Some(off) => {
                    out.push(AsmLine::LoadVar(off));
                    proof {
                        lemma_emit_push(b0, AsmLine::LoadVar(off));
                        lemma_chunk_plain(
                            AsmLine::LoadVar(off),
                            label_range(k0, k0),
                            Set::empty(),
                        );
                        assert(off == context@.vars[name@] as i64);
                    }
                    Result::Ok(())
                },
                Option::None => Result::Err(GenError::UndeclaredVariable(name.clone())),
            }
        },
        Expression::UnaryOperators(op, inner) => {
            generate_expression(inner, context, counter, out)?;
            let ghost b1 = out@;
            let ghost k1 = *counter as int;
            match op {
                Operator::Minus => {
                    out.push(AsmLine::NegRax);
                    proof {
                        lemma_emit_push(b1, AsmLine::NegRax);
                        lemma_chunk_plain_suffix(b0, b1, out@, label_range(k0, k1));
                        lemma_emit_trans(b0, b1, out@);
                        assert(emitted(b0, out@) =~= emitted(b0, b1) + sp_unop_lines(*op));
                    }
                    Result::Ok(())
                },
                Operator::LogicalNegation => {
                    out.push(AsmLine::CmpRaxZero);
                    out.push(AsmLine::SetE);
                    out.push(AsmLine::MovzbRaxAl);
                    proof {
                        assert(out@ == b1.push(AsmLine::CmpRaxZero).push(AsmLine::SetE).push(
                            AsmLine::MovzbRaxAl,
                        ));
                        assert(extends_out(b1, out@));
                        lemma_chunk_plain_suffix(b0, b1, out@, label_range(k0, k1));
                        lemma_emit_trans(b0, b1, out@);
                        assert(emitted(b1, out@) =~= sp_unop_lines(*op));
                        assert(emitted(b0, out@) =~= emitted(b0, b1) + sp_unop_lines(*op));
                    }
                    Result::Ok(())
                },
                _ => Result::Err(GenError::UnsupportedOperator),
            }
        },
        Expression::AssignmentOperators(op, name, rhs) => {
            generate_expression(rhs, context, counter, out)?;
            let ghost b1 = out@;
            let ghost k1 = *counter as int;
            match vm_get(&context.var_map, name) {
                Option::None => Result::Err(GenError::UndeclaredVariable(name.clone())),
                Option::Some(off) => {
                    let lines_ok: bool = match op {
                        Operator::Assignment => {
                            out.push(AsmLine::StoreVar(off));
                            true
                        },
                        Operator::AssignPlus => {
                            out.push(AsmLine::AddVar(off));
                            out.push(AsmLine::LoadVar(off));
                            true
                        },
                        Operator::AssignMinus => {
                            out.push(AsmLine::SubVar(off));
                            out.push(AsmLine::LoadVar(off));
                            true
                        },
                        Operator::AssignMult => {
                            out.push(AsmLine::MovRdiRax);
                            out.push(AsmLine::LoadVar(off));
                            out.push(AsmLine::MulRdi);
                            out.push(AsmLine::StoreVar(off));
                            true
                        },
                        Operator::AssignDiv => {
                            out.push(AsmLine::MovRdiRax);
                            out.push(AsmLine::LoadVar(off));
                            out.push(AsmLine::ClearRdx);
                            out.push(AsmLine::DivRdi);
                            out.push(AsmLine::StoreVar(off));
                            true
                        },
                        Operator::AssignMod => {
                            out.push(AsmLine::MovRdiRax);
                            out.push(AsmLine::LoadVar(off));
                            out.push(AsmLine::ClearRdx);
                            out.push(AsmLine::DivRdi);
                            out.push(AsmLine::MovRaxRdx);
                            out.push(AsmLine::StoreVar(off));
                            true
                        },
                        _ => false,
                    };
                    if lines_ok {
                        proof {
                            assert(extends_out(b1, out@));
                            lemma_chunk_plain_suffix(b0, b1, out@, label_range(k0, k1));
                            lemma_emit_trans(b0, b1, out@);
                            assert(off == context@.vars[name@] as i64);
                            assert(emitted(b1, out@) =~= sp_assign_lines(*op, off));
                            assert(emitted(b0, out@) =~= emitted(b0, b1) + sp_assign_lines(
                                *op,
                                off,
                            ));
                        }
                        Result::Ok(())
                    } else {
                        Result::Err(GenError::UnsupportedOperator)
                    }
                },
            }
        },
        Expression::BinaryOperators(op, lhs, rhs) => {
            generate_expression(rhs, context, counter, out)?;
            let ghost b1 = out@;
            let ghost k1 = *counter as int;
            out.push(AsmLine::PushRax);
            let ghost bp = out@;
            proof {
                lemma_emit_push(b1, AsmLine::PushRax);
                lemma_emit_trans(b0, b1, bp);
            }
            generate_expression(lhs, context, counter, out)?;
            let ghost b2 = out@;
            let ghost k2 = *counter as int;
            out.push(AsmLine::PopRdi);
            let lines_ok: bool = match op {
                Operator::Plus => {
                    out.push(AsmLine::AddRaxRdi);
                    true
                },
                Operator::Minus => {
                    out.push(AsmLine::SubRaxRdi);
                    true
                },
                Operator::Multiplication => {
                    out.push(AsmLine::MulRdi);
                    true
                },
                Operator::Division => {
                    out.push(AsmLine::ClearRdx);
                    out.push(AsmLine::DivRdi);
                    true
                },
                Operator::Modulo => {
                    out.push(AsmLine::ClearRdx);
                    out.push(AsmLine::DivRdi);
                    out.push(AsmLine::MovRaxRdx);
                    true
                },
                Operator::Equal => {
                    out.push(AsmLine::CmpRaxRdi);
                    out.push(AsmLine::SetE);
                    out.push(AsmLine::MovzbRaxAl);
                    true
                },
                Operator::NotEqual => {
                    out.push(AsmLine::CmpRaxRdi);
                    out.push(AsmLine::SetNe);
                    out.push(AsmLine::MovzbRaxAl);
                    true
                },
                Operator::LessThan => {
                    out.push(AsmLine::CmpRaxRdi);
                    out.push(AsmLine::SetL);
                    out.push(AsmLine::MovzbRaxAl);
                    true
                },
                Operator::LessThanOrEqual => {
                    out.push(AsmLine::CmpRaxRdi);
                    out.push(AsmLine::SetLe);
                    out.push(AsmLine::MovzbRaxAl);
                    true
                },
                Operator::GreaterThan => {
                    out.push(AsmLine::CmpRaxRdi);
                    out.push(AsmLine::SetG);
                    out.push(AsmLine::MovzbRaxAl);
                    true
                },
                Operator::GreaterThanOrEqual => {
                    out.push(AsmLine::CmpRaxRdi);
                    out.push(AsmLine::SetGe);
                    out.push(AsmLine::MovzbRaxAl);
                    true
                },
                Operator::LogicalOr => {
                    out.push(AsmLine::OrRdiRax);
                    out.push(AsmLine::SetNe);
                    out.push(AsmLine::MovzbRaxAl);
                    true
                },
                Operator::LogicalAnd => {
                    out.push(AsmLine::CmpRdiZero);
                    out.push(AsmLine::SetNeDil);
                    out.push(AsmLine::CmpRaxZero);
                    out.push(AsmLine::SetNe);
                    out.push(AsmLine::MovzbRaxAl);
                    out.push(AsmLine::AndAlDil);
                    true
                },
                Operator::BitwiseAnd => {
                    out.push(AsmLine::AndRaxRdi);
                    true
                },
                Operator::BitwiseOr => {
                    out.push(AsmLine::OrRaxRdi);
                    true
                },
                Operator::BitwiseXor => {
                    out.push(AsmLine::XorRaxRdi);
                    true
                },
                Operator::BitwiseShiftLeft => {
                    out.push(AsmLine::MovRcxRdi);
                    out.push(AsmLine::ShlRaxCl);
                    true
                },
                Operator::BitwiseShiftRight => {
                    out.push(AsmLine::MovRcxRdi);
                    out.push(AsmLine::ShrRaxCl);
                    true
                },
                _ => false,
            };
            if lines_ok {
                proof {
                    lemma_chunk_plain(AsmLine::PushRax, label_range(k1, k1), Set::empty());
                    lemma_emit_trans(b1, bp, b2);
                    lemma_chunk_join(
                        seq![AsmLine::PushRax],
                        emitted(bp, b2),
                        label_range(k1, k1),
                        label_range(k1, k2),
                        Set::empty(),
                    );
                    assert(emitted(b1, b2) =~= seq![AsmLine::PushRax] + emitted(bp, b2));
                    lemma_chunk_widen(
                        emitted(b1, b2),
                        label_range(k1, k1).union(label_range(k1, k2)),
                        label_range(k1, k2),
                        Set::empty(),
                        Set::empty(),
                    );
                    assert(extends_out(b2, out@));
                    lemma_chunk_plain_suffix(b1, b2, out@, label_range(k1, k2));
                    lemma_emit_trans(b0, b1, out@);
                    lemma_emit_trans(b1, b2, out@);
                    assert(emitted(b2, out@) =~= seq![AsmLine::PopRdi] + sp_binop_lines(*op));
                    assert(emitted(b0, out@) =~= emitted(b0, b1) + seq![AsmLine::PushRax]
                        + emitted(bp, b2) + seq![AsmLine::PopRdi] + sp_binop_lines(*op));
                    lemma_chunk_join(
                        emitted(b0, b1),
                        emitted(b1, out@),
                        label_range(k0, k1),
                        label_range(k1, k2),
                        Set::empty(),
                    );
                    lemma_chunk_widen(
                        emitted(b0, out@),
                        label_range(k0, k1).union(label_range(k1, k2)),
                        label_range(k0, k2),
                        Set::empty(),
                        Set::empty(),
                    );
                }
                Result::Ok(())
            } else {
                Result::Err(GenError::UnsupportedOperator)
            }
        },
        Expression::TernaryOperators(cond, te, fe) => {
            proof {
                assert(decreases_to!(*e => e->TernaryOperators_0));
                assert(decreases_to!(*e => e->TernaryOperators_1));
                assert(decreases_to!(*e => e->TernaryOperators_2));
            }
            generate_ternary(cond, te, fe, context, counter, out, Ghost(*e))?;
            proof {
                assert(emitted(b0, out@) =~= sp_expr_lines(*e, context@.vars, k0));
            }
            Result::Ok(())
        },
        Expression::FunctionCalls(id, args) => {
            let ghost vars = context@.vars;
            let mut j = args.len();
            proof {
                assert(args@.take(j as int) =~= args@);
                lemma_emit_refl(b0);
                lemma_chunk_empty(label_range(k0, k0), Set::<LabelId>::empty());
            }
            while j > 0
                invariant
                    *e is FunctionCalls,
                    e->FunctionCalls_1 == *args,
                    j <= args@.len(),
                    *old(counter) as int == k0,
                    old(out)@ == b0,
                    vars == context@.vars,
                    extends_out(b0, out@),
                    *old(counter) <= *counter,
                    chunk_ok(emitted(b0, out@), label_range(k0, *counter as int), Set::empty()),
                    sp_exprs_rev(args@, vars, k0) == sp_exprs_rev(
                        args@.take(j as int),
                        vars,
                        *counter as int,
                    ),
                    sp_exprs_rev_lines(args@, vars, k0) =~= emitted(b0, out@)
                        + sp_exprs_rev_lines(args@.take(j as int), vars, *counter as int),
                decreases j,
            {
                j = j - 1;
                let ghost bpre = out@;
                let ghost kpre = *counter as int;
                proof {
                    assert(args@.take(j as int + 1).last() == args@[j as int]);
                    assert(args@.take(j as int + 1).drop_last() =~= args@.take(j as int));
                    assert(decreases_to!(*e => e->FunctionCalls_1));
                    assert(e->FunctionCalls_1 == *args);
                    assert(decreases_to!(*args => args@));
                    assert(decreases_to!(args@ => args@[j as int]));
                }
                match generate_expression(&args[j], context, counter, out) {
                    Result::Ok(_) => {},
                    Result::Err(err) => {
                        proof {
                            let kc = *counter as int;
                            assert(sp_expr(args@[j as int], vars, kpre) == (
                                Option::Some(err@),
                                kc,
                            ));
                            assert(sp_exprs_rev(args@.take(j as int + 1), vars, kpre) == (
                                Option::Some(err@),
                                kc,
                            ));
                        }
                        return Result::Err(err);
                    },
                }
                let ghost bpost = out@;
                let ghost kcur = *counter as int;
                out.push(AsmLine::PushRax);
                proof {
                    lemma_emit_push(bpost, AsmLine::PushRax);
                    lemma_emit_trans(bpre, bpost, out@);
                    lemma_chunk_plain(AsmLine::PushRax, Set::empty(), Set::<LabelId>::empty());
                    lemma_chunk_join(
                        emitted(bpre, bpost),
                        seq![AsmLine::PushRax],
                        label_range(kpre, kcur),
                        Set::empty(),
                        Set::empty(),
                    );
                    assert(emitted(bpre, out@) =~= emitted(bpre, bpost) + seq![AsmLine::PushRax]);
                    lemma_emit_trans(b0, bpre, out@);
                    assert(sp_exprs_rev_lines(args@, vars, k0) =~= emitted(b0, out@)
                        + sp_exprs_rev_lines(args@.take(j as int), vars, *counter as int));
                    lemma_chunk_join(
                        emitted(b0, bpre),
                        emitted(bpre, out@),
                        label_range(k0, kpre),
                        label_range(kpre, kcur).union(Set::empty()),
                        Set::empty(),
                    );
                    lemma_chunk_widen(
                        emitted(b0, out@),
                        label_range(k0, kpre).union(label_range(kpre, kcur).union(Set::empty())),
                        label_range(k0, kcur),
                        Set::empty(),
                        Set::empty(),
                    );
                }
            }
            proof {
                assert(args@.take(0) =~= Seq::<Expression>::empty());
            }
            let ghost bloop = out@;
            let ghost kc = *counter as int;
            let call_line = AsmLine::CallFn(id.clone());
            let ghost call_l = call_line;
            out.push(call_line);
            proof {
                lemma_emit_push(bloop, call_l);
                lemma_emit_trans(b0, bloop, out@);
            }
            if args.len() as u64 > u64::MAX / 8 {
                return Result::Err(GenError::FrameOverflow);
            }
            let bytes: u64 = (args.len() as u64) * 8;
            let ghost b6 = out@;
            out.push(AsmLine::AddRsp(bytes));
            proof {
                lemma_emit_push(b6, AsmLine::AddRsp(bytes));
                lemma_emit_trans(b0, b6, out@);
                lemma_emit_trans(bloop, b6, out@);
                lemma_chunk_plain(call_l, Set::empty(), Set::<LabelId>::empty());
                lemma_chunk_plain(AsmLine::AddRsp(bytes), Set::empty(), Set::<LabelId>::empty());
                lemma_chunk_join(
                    seq![call_l],
                    seq![AsmLine::AddRsp(bytes)],
                    Set::empty(),
                    Set::empty(),
                    Set::empty(),
                );
                assert(emitted(bloop, out@) =~= seq![call_l] + seq![AsmLine::AddRsp(bytes)]);
                lemma_emit_trans(b0, bloop, out@);
                assert(emitted(b0, bloop) =~= sp_exprs_rev_lines(args@, vars, k0));
                assert(bytes == (args@.len() * 8) as u64);
                assert(emitted(b0, out@) =~= sp_exprs_rev_lines(args@, vars, k0) + seq![
                    AsmLine::CallFn(*id),
                ] + seq![AsmLine::AddRsp(bytes)]);
                lemma_chunk_join(
                    emitted(b0, bloop),
                    emitted(bloop, out@),
                    label_range(k0, kc),
                    Set::empty().union(Set::empty()),
                    Set::empty(),
                );
                lemma_chunk_widen(
                    emitted(b0, out@),
                    label_range(k0, kc).union(Set::empty().union(Set::empty())),
                    label_range(k0, kc),
                    Set::empty(),
                    Set::empty(),
                );
            }
            Result::Ok(())
        },
    }
}


/// What lowering an optional expression does: nothing for an absent one.
pub open spec fn sp_opt_expr(oe: Option<Expression>, vars: Map<Seq<char>, int>, k: int) -> (
    Option<SpecGenError>,
    int,
) {
    match oe {
        Option::Some(e) => sp_expr(e, vars, k),
        Option::None => (Option::None, k),
    }
}

/// Lowers a ternary conditional: the condition, a test and a jump to the
/// else label, the then branch, a jump past the else branch, the else
/// label and branch, and the end label. Both labels share one fresh
/// serial, drawn after the condition, and resolve inside the chunk.
#[verifier::rlimit(100)]
#[verifier::spinoff_prover]
fn generate_ternary(
    cond: &Expression,
    te: &Expression,
    fe: &Expression,
    context: &Context,
    counter: &mut u64,
    out: &mut Vec<AsmLine>,
    Ghost(parent): Ghost<Expression>,
) -> (r: Result<(), GenError>)
    requires
        decreases_to!(parent => *cond),
        decreases_to!(parent => *te),
        decreases_to!(parent => *fe),
    ensures
        extends_out(old(out)@, final(out)@),
        *old(counter) <= *final(counter),
        r is Ok ==> chunk_ok(
            emitted(old(out)@, final(out)@),
            label_range(*old(counter) as int, *final(counter) as int),
            Set::empty(),
        ),
        ({
            let vars = context@.vars;
            let k = *old(counter) as int;
            let (g1, k1) = sp_expr(*cond, vars, k);
            let gk: (Option<SpecGenError>, int) = if g1 is Some {
                (g1, k1)
            } else if k1 == u64::MAX {
                (Option::Some(SpecGenError::LabelOverflow), k1)
            } else {
                let (g2, k2) = sp_expr(*te, vars, k1 + 1);
                if g2 is Some {
                    (g2, k2)
                } else {
                    sp_expr(*fe, vars, k2)
                }
            };
            &&& *final(counter) as int == gk.1
            &&& match r {
                Result::Ok(_) => gk.0 is None,
                Result::Err(err) => gk.0 == Option::Some(err@),
            }
        }),
        r is Ok ==> ({
            let vars = context@.vars;
            let k = *old(counter) as int;
            let k1 = sp_expr(*cond, vars, k).1;
            let el = (LabelId { kind: LabelKind::TernaryElse, serial: k1 as u64 });
            let en = (LabelId { kind: LabelKind::TernaryEnd, serial: k1 as u64 });
            let k2 = sp_expr(*te, vars, k1 + 1).1;
            emitted(old(out)@, final(out)@) =~= sp_expr_lines(*cond, vars, k) + seq![
                AsmLine::CmpRaxZero,
            ] + seq![AsmLine::Je(el)] + sp_expr_lines(*te, vars, k1 + 1) + seq![
                AsmLine::Jmp(en),
            ] + seq![AsmLine::Label(el)] + sp_expr_lines(*fe, vars, k2) + seq![
                AsmLine::Label(en),
            ]
        }),
    decreases parent, 0int,
{
    let ghost b0 = out@;
    let ghost k0 = *counter as int;
    generate_expression(cond, context, counter, out)?;
    let ghost b1 = out@;
    let ghost k1 = *counter as int;
    out.push(AsmLine::CmpRaxZero);
    let s = fresh_serial(counter)?;
    let else_label = LabelId { kind: LabelKind::TernaryElse, serial: s };
    let end_label = LabelId { kind: LabelKind::TernaryEnd, serial: s };
    out.push(AsmLine::Je(else_label));
    let ghost b2 = out@;
    proof {
        lemma_emit_push(b1, AsmLine::CmpRaxZero);
        lemma_emit_trans(b0, b1, b1.push(AsmLine::CmpRaxZero));
        lemma_emit_push(b1.push(AsmLine::CmpRaxZero), AsmLine::Je(else_label));
        lemma_emit_trans(b0, b1.push(AsmLine::CmpRaxZero), b2);
    }
    generate_expression(te, context, counter, out)?;
    let ghost b3 = out@;
    let ghost k2 = *counter as int;
    out.push(AsmLine::Jmp(end_label));
    out.push(AsmLine::Label(else_label));
    let ghost b4 = out@;
    proof {
        lemma_emit_push(b3, AsmLine::Jmp(end_label));
        lemma_emit_trans(b0, b3, b3.push(AsmLine::Jmp(end_label)));
        lemma_emit_push(b3.push(AsmLine::Jmp(end_label)), AsmLine::Label(else_label));
        lemma_emit_trans(b0, b3.push(AsmLine::Jmp(end_label)), b4);
    }
    generate_expression(fe, context, counter, out)?;
    let ghost b5 = out@;
    let ghost k3 = *counter as int;
    out.push(AsmLine::Label(end_label));
    proof {
        let open_set = Set::empty().insert(else_label).insert(end_label);
        let d_cond = label_range(k0, k1);
        let d_then = label_range(k1 + 1, k2);
        let d_else = label_range(k2, k3);
        let d_le = Set::empty().insert(else_label);
        let d_en = Set::empty().insert(end_label);
        // head: condition, comparison, jump to the else label
        lemma_chunk_widen(emitted(b0, b1), d_cond, d_cond, Set::empty(), open_set);
        lemma_chunk_plain(AsmLine::CmpRaxZero, Set::empty(), open_set);
        lemma_chunk_jump(AsmLine::Je(else_label), Set::empty(), open_set);
        lemma_chunk_join(
            emitted(b0, b1),
            seq![AsmLine::CmpRaxZero],
            d_cond,
            Set::empty(),
            open_set,
        );
        lemma_chunk_join(
            emitted(b0, b1) + seq![AsmLine::CmpRaxZero],
            seq![AsmLine::Je(else_label)],
            d_cond.union(Set::empty()),
            Set::empty(),
            open_set,
        );
        assert(emitted(b0, b2) =~= emitted(b0, b1) + seq![AsmLine::CmpRaxZero] + seq![
            AsmLine::Je(else_label),
        ]);
        let d_head = d_cond.union(Set::empty()).union(Set::empty());
        assert(d_head =~= d_cond);
        // then branch
        lemma_chunk_widen(emitted(b2, b3), d_then, d_then, Set::empty(), open_set);
        lemma_emit_trans(b0, b2, b3);
        lemma_chunk_join(emitted(b0, b2), emitted(b2, b3), d_cond, d_then, open_set);
        // jump to the end, then the else label's definition
        lemma_chunk_jump(AsmLine::Jmp(end_label), Set::empty(), open_set);
        lemma_chunk_join(
            emitted(b0, b3),
            seq![AsmLine::Jmp(end_label)],
            d_cond.union(d_then),
            Set::empty(),
            open_set,
        );
        lemma_chunk_def(AsmLine::Label(else_label), d_le, open_set);
        assert(d_cond.union(d_then).union(Set::empty()).disjoint(d_le));
        lemma_chunk_join(
            emitted(b0, b3) + seq![AsmLine::Jmp(end_label)],
            seq![AsmLine::Label(else_label)],
            d_cond.union(d_then).union(Set::empty()),
            d_le,
            open_set,
        );
        assert(emitted(b0, b4) =~= emitted(b0, b3) + seq![AsmLine::Jmp(end_label)] + seq![
            AsmLine::Label(else_label),
        ]);
        let d_front = d_cond.union(d_then).union(Set::empty()).union(d_le);
        // the else branch and the end label
        lemma_chunk_widen(emitted(b4, b5), d_else, d_else, Set::empty(), open_set);
        lemma_emit_trans(b0, b4, b5);
        assert(d_front.disjoint(d_else));
        lemma_chunk_join(emitted(b0, b4), emitted(b4, b5), d_front, d_else, open_set);
        lemma_emit_push(b5, AsmLine::Label(end_label));
        lemma_emit_trans(b0, b5, out@);
        lemma_chunk_def(AsmLine::Label(end_label), d_en, open_set);
        assert(d_front.union(d_else).disjoint(d_en));
        lemma_chunk_join(
            emitted(b0, b5),
            seq![AsmLine::Label(end_label)],
            d_front.union(d_else),
            d_en,
            open_set,
        );
        let d_total = d_front.union(d_else).union(d_en);
        // both labels are defined exactly once: close the chunk
        let total = emitted(b0, out@);
        lemma_def_count_concat(emitted(b0, b5), seq![AsmLine::Label(end_label)], end_label);
        assert(def_count(seq![AsmLine::Label(end_label)], end_label) > 0) by {
            assert(seq![AsmLine::Label(end_label)].last() == AsmLine::Label(end_label));
        }
        assert(defines(total, end_label));
        lemma_def_count_concat(
            emitted(b0, b4),
            emitted(b4, b5) + seq![AsmLine::Label(end_label)],
            else_label,
        );
        lemma_def_count_concat(
            emitted(b0, b3) + seq![AsmLine::Jmp(end_label)],
            seq![AsmLine::Label(else_label)],
            else_label,
        );
        assert(def_count(seq![AsmLine::Label(else_label)], else_label) > 0) by {
            assert(seq![AsmLine::Label(else_label)].last() == AsmLine::Label(else_label));
        }
        assert(total =~= emitted(b0, b4) + (emitted(b4, b5) + seq![
            AsmLine::Label(end_label),
        ]));
        assert(defines(total, else_label));
        assert(open_set =~= Set::empty().insert(end_label).insert(else_label));
        lemma_chunk_resolve(total, d_total, Set::empty().insert(end_label), else_label);
        lemma_chunk_resolve(total, d_total, Set::empty(), end_label);
        lemma_chunk_widen(total, d_total, label_range(k0, k3), Set::empty(), Set::empty());
        assert(emitted(b0, b3) =~= emitted(b0, b1) + seq![AsmLine::CmpRaxZero] + seq![
            AsmLine::Je(else_label),
        ] + emitted(b2, b3));
        assert(total =~= emitted(b0, b1) + seq![AsmLine::CmpRaxZero] + seq![
            AsmLine::Je(else_label),
        ] + emitted(b2, b3) + seq![AsmLine::Jmp(end_label)] + seq![
            AsmLine::Label(else_label),
        ] + emitted(b4, b5) + seq![AsmLine::Label(end_label)]);
    }
    Result::Ok(())
}

/// The jump targets an enclosing loop lends to the statements inside it.
pub open spec fn ctx_allowed(c: Context) -> Set<LabelId> {
    Set::new(
        |id: LabelId|
            c.break_label == Option::<LabelId>::Some(id) || c.continue_label == Option::<
                LabelId,
            >::Some(id),
    )
}

/// The frame-setup epilogue: restore the caller's stack frame and return.
fn generate_function_end(out: &mut Vec<AsmLine>)
    ensures
        extends_out(old(out)@, final(out)@),
        emitted(old(out)@, final(out)@) =~= seq![
            AsmLine::MovRspRbp,
            AsmLine::PopRbp,
            AsmLine::Ret,
        ],
{
    let ghost b0 = out@;
    out.push(AsmLine::MovRspRbp);
    out.push(AsmLine::PopRbp);
    out.push(AsmLine::Ret);
    proof {
        assert(out@ == b0.push(AsmLine::MovRspRbp).push(AsmLine::PopRbp).push(AsmLine::Ret));
        assert(extends_out(b0, out@));
        assert(emitted(b0, out@) =~= seq![AsmLine::MovRspRbp, AsmLine::PopRbp, AsmLine::Ret]);
    }
}

/// Lowers one declaration: evaluate the initializer (zero where absent),
/// push the value as the variable's storage, and record the new offset.
///
/// The contract pins the errors exactly, in evaluation order: a name the
/// block already declared is a duplicate-declaration error before anything
/// is emitted; then the initializer's own errors (`sp_opt_expr`); then a
/// frame-offset exhaustion error. On success the context gains the name in
/// its variables and its scope, and the next free slot moves down by one.
pub fn generate_declaration(
    declaration: &Declaration,
    context: &mut Context,
    counter: &mut u64,
    out: &mut Vec<AsmLine>,
) -> (r: Result<(), GenError>)
    ensures
        extends_out(old(out)@, final(out)@),
        *old(counter) <= *final(counter),
        final(context).break_label == old(context).break_label,
        final(context).continue_label == old(context).continue_label,
        ({
            let Declaration::Declaration(name, init) = *declaration;
            let (ge, k1) = sp_opt_expr(init, old(context)@.vars, *old(counter) as int);
            &&& old(context)@.scope.contains(name@) ==> (r matches Result::Err(e) && e@
                == SpecGenError::DuplicateDeclaration(name@) && final(out)@ == old(out)@
                && *final(counter) == *old(counter))
            &&& !old(context)@.scope.contains(name@) ==> {
                &&& *final(counter) as int == k1
                &&& ge matches Option::Some(err) ==> (r matches Result::Err(e2) && e2@ == err)
                &&& ge is None ==> (r is Ok <==> old(context).stack_index >= i64::MIN + 8)
                &&& (ge is None && old(context).stack_index < i64::MIN + 8) ==> (r matches
                    Result::Err(e3) && e3@ == SpecGenError::FrameOverflow)
            }
            &&& r is Ok ==> {
                &&& final(context)@.vars =~= old(context)@.vars.insert(
                    name@,
                    old(context)@.si,
                )
                &&& final(context)@.scope =~= old(context)@.scope.insert(name@)
                &&& final(context).stack_index == old(context).stack_index - 8
                &&& chunk_ok(
                    emitted(old(out)@, final(out)@),
                    label_range(*old(counter) as int, *final(counter) as int),
                    Set::empty(),
                )
                &&& emitted(old(out)@, final(out)@) =~= sp_decl_lines(
                    *declaration,
                    old(context)@.vars,
                    *old(counter) as int,
                )
            }
            &&& r is Err ==> final(context)@ == old(context)@
        }),
{
    let ghost b0 = out@;
    let ghost k0 = *counter as int;
    match declaration {
        Declaration::Declaration(name, init) => {
            if scope_has(&context.current_scope, name) {
                return Result::Err(GenError::DuplicateDeclaration(name.clone()));
            }
            match init {
                Option::Some(expr) => {
                    generate_expression(expr, context, counter, out)?;
                    let ghost b1 = out@;
                    let ghost k1 = *counter as int;
                    out.push(AsmLine::PushRax);
                    proof {
                        lemma_emit_push(b1, AsmLine::PushRax);
                        lemma_chunk_plain_suffix(b0, b1, out@, label_range(k0, k1));
                        lemma_emit_trans(b0, b1, out@);
                        assert(emitted(b0, out@) =~= emitted(b0, b1) + seq![AsmLine::PushRax]);
                    }
                },
                Option::None => {
                    out.push(AsmLine::PushZero);
                    proof {
                        lemma_emit_push(b0, AsmLine::PushZero);
                        lemma_chunk_plain(AsmLine::PushZero, label_range(k0, k0), Set::empty());
                    }
                },
            }
            if context.stack_index < i64::MIN + 8 {
                return Result::Err(GenError::FrameOverflow);
            }
            let ghost vm0 = context.var_map@;
            let ghost sc0 = context.current_scope@;
            context.var_map.push((name.clone(), context.stack_index));
            context.current_scope.push(name.clone());
            context.stack_index = context.stack_index - 8;
            proof {
                assert(context.var_map@.drop_last() =~= vm0);
                assert forall|nm: Seq<char>|
                    final(context)@.scope.contains(nm) == old(context)@.scope.insert(
                        name@,
                    ).contains(nm) by {
                    if nm == name@ {
                        assert((context.current_scope@[sc0.len() as int])@ == nm);
                    } else {
                        if scope_contains(context.current_scope@, nm) {
                            let i = choose|i: int|
                                0 <= i < context.current_scope@.len() && (
                                #[trigger] context.current_scope@[i])@ == nm;
                            assert((sc0[i])@ == nm);
                        }
                        if scope_contains(sc0, nm) {
                            let i = choose|i: int| 0 <= i < sc0.len() && (#[trigger] sc0[i])@ == nm;
                            assert((context.current_scope@[i])@ == nm);
                        }
                    }
                }
                assert(final(context)@.vars =~= old(context)@.vars.insert(
                    name@,
                    old(context)@.si,
                ));
                assert(final(context)@.scope =~= old(context)@.scope.insert(name@));
            }
            Result::Ok(())
        },
    }
}


/// Lowers one statement under a scope-reset copy of the context.
///
/// On success the emitted chunk is label-closed over the serials drawn,
/// except that jumps may target the enclosing loop's break and continue
/// labels (`ctx_allowed`). The result and the counter movement are exactly
/// `sp_stmt` of the statement; in particular `break` and `continue`
/// succeed exactly when the context carries the corresponding label, and
/// fail with exactly the out-of-loop error otherwise.
#[verifier::rlimit(100)]
#[verifier::spinoff_prover]
pub fn generate_statement(
    statement: &Statement,
    context: &Context,
    counter: &mut u64,
    out: &mut Vec<AsmLine>,
) -> (r: Result<(), GenError>)
    ensures
        extends_out(old(out)@, final(out)@),
        *old(counter) <= *final(counter),
        r is Ok ==> chunk_ok(
            emitted(old(out)@, final(out)@),
            label_range(*old(counter) as int, *final(counter) as int),
            ctx_allowed(*context),
        ),
        r is Ok ==> emitted(old(out)@, final(out)@) =~= sp_stmt_lines(
            *statement,
            context@,
            *old(counter) as int,
        ),
        statement is Break ==> ((context.break_label is Some <==> r is Ok) && (r matches
        Result::Err(e) ==> e@ == SpecGenError::BreakOutsideLoop)),
        statement is Continue ==> ((context.continue_label is Some <==> r is Ok) && (r matches
        Result::Err(e) ==> e@ == SpecGenError::ContinueOutsideLoop)),
        ({
            let (ge, k1) = sp_stmt(*statement, context@, *old(counter) as int);
            &&& *final(counter) as int == k1
            &&& match r {
                Result::Ok(_) => ge is None,
                Result::Err(err) => ge == Option::Some(err@),
            }
        }),
    decreases *statement, 1int,
{
    let ghost b0 = out@;
    let ghost k0 = *counter as int;
    let ghost outer_allowed = ctx_allowed(*context);
    let c = context.reset_scope();
    proof {
        assert(ctx_allowed(c) =~= outer_allowed);
        assert(c@ =~= SpecCtx { scope: Set::empty(), ..context@ });
    }
    match statement {
        Statement::Expression(oe) => {
            match oe {
                Option::Some(expr) => {
                    generate_expression(expr, &c, counter, out)?;
                    proof {
                        lemma_chunk_widen(
                            emitted(b0, out@),
                            label_range(k0, *counter as int),
                            label_range(k0, *counter as int),
                            Set::empty(),
                            outer_allowed,
                        );
                        assert(emitted(b0, out@) =~= sp_stmt_lines(*statement, context@, k0));
                    }
                    Result::Ok(())
                },
                Option::None => {
                    proof {
                        lemma_emit_refl(b0);
                        lemma_chunk_empty(label_range(k0, k0), outer_allowed);
                        assert(emitted(b0, out@) =~= sp_stmt_lines(*statement, context@, k0));
                    }
                    Result::Ok(())
                },
            }
        },
        Statement::Return(expr) => {
            generate_expression(expr, &c, counter, out)?;
            let ghost b1 = out@;
            let ghost k1 = *counter as int;
            generate_function_end(out);
            proof {
                assert(forall|i: int|
                    b1.len() <= i < out@.len() ==> def_label(#[trigger] out@[i]) is None
                        && jump_target(out@[i]) is None) by {
                    assert(emitted(b1, out@) =~= seq![
                        AsmLine::MovRspRbp,
                        AsmLine::PopRbp,
                        AsmLine::Ret,
                    ]);
                }
                lemma_chunk_plain_suffix(b0, b1, out@, label_range(k0, k1));
                lemma_chunk_widen(
                    emitted(b0, out@),
                    label_range(k0, k1),
                    label_range(k0, k1),
                    Set::empty(),
                    outer_allowed,
                );
                lemma_emit_trans(b0, b1, out@);
                assert(emitted(b0, out@) =~= emitted(b0, b1) + seq![
                    AsmLine::MovRspRbp,
                    AsmLine::PopRbp,
                    AsmLine::Ret,
                ]);
            }
            Result::Ok(())
        },
        Statement::If(cond, tb, eb) => {
            generate_expression(cond, &c, counter, out)?;
            let ghost b1 = out@;
            let ghost k1 = *counter as int;
            out.push(AsmLine::CmpRaxZero);
            let s = fresh_serial(counter)?;
            let post_if = LabelId { kind: LabelKind::PostIf, serial: s };
            let post_else = LabelId { kind: LabelKind::PostElse, serial: s };
            out.push(AsmLine::Je(post_if));
            let ghost b2 = out@;
            proof {
                lemma_emit_push(b1, AsmLine::CmpRaxZero);
                lemma_emit_trans(b0, b1, b1.push(AsmLine::CmpRaxZero));
                lemma_emit_push(b1.push(AsmLine::CmpRaxZero), AsmLine::Je(post_if));
                lemma_emit_trans(b0, b1.push(AsmLine::CmpRaxZero), b2);
                assert(decreases_to!(*statement => statement->If_1));
                assert(statement->If_1 == **tb);
            }
            match eb {
                Option::None => {
                    generate_statement(&*tb, &c, counter, out)?;
                    let ghost b3 = out@;
                    let ghost k2 = *counter as int;
                    out.push(AsmLine::Label(post_if));
                    proof {
                        let open_set = outer_allowed.insert(post_if);
                        let d_cond = label_range(k0, k1);
                        let d_then = label_range(k1 + 1, k2);
                        let d_pi = Set::empty().insert(post_if);
                        lemma_chunk_widen(emitted(b0, b1), d_cond, d_cond, Set::empty(), open_set);
                        lemma_chunk_plain(AsmLine::CmpRaxZero, Set::empty(), open_set);
                        lemma_chunk_jump(AsmLine::Je(post_if), Set::empty(), open_set);
                        lemma_chunk_join(
                            emitted(b0, b1),
                            seq![AsmLine::CmpRaxZero],
                            d_cond,
                            Set::empty(),
                            open_set,
                        );
                        lemma_chunk_join(
                            emitted(b0, b1) + seq![AsmLine::CmpRaxZero],
                            seq![AsmLine::Je(post_if)],
                            d_cond.union(Set::empty()),
                            Set::empty(),
                            open_set,
                        );
                        assert(emitted(b0, b2) =~= emitted(b0, b1) + seq![AsmLine::CmpRaxZero]
                            + seq![AsmLine::Je(post_if)]);
                        lemma_chunk_widen(emitted(b2, b3), d_then, d_then, outer_allowed, open_set);
                        lemma_emit_trans(b0, b2, b3);
                        lemma_chunk_join(
                            emitted(b0, b2),
                            emitted(b2, b3),
                            d_cond.union(Set::empty()).union(Set::empty()),
                            d_then,
                            open_set,
                        );
                        lemma_emit_push(b3, AsmLine::Label(post_if));
                        lemma_emit_trans(b0, b3, out@);
                        lemma_chunk_def(AsmLine::Label(post_if), d_pi, open_set);
                        let d_front = d_cond.union(Set::empty()).union(Set::empty()).union(d_then);
                        assert(d_front.disjoint(d_pi));
                        lemma_chunk_join(
                            emitted(b0, b3),
                            seq![AsmLine::Label(post_if)],
                            d_front,
                            d_pi,
                            open_set,
                        );
                        let total = emitted(b0, out@);
                        lemma_def_count_concat(
                            emitted(b0, b3),
                            seq![AsmLine::Label(post_if)],
                            post_if,
                        );
                        assert(def_count(seq![AsmLine::Label(post_if)], post_if) > 0) by {
                            assert(seq![AsmLine::Label(post_if)].last() == AsmLine::Label(post_if));
                        }
                        assert(defines(total, post_if));
                        lemma_chunk_resolve(total, d_front.union(d_pi), outer_allowed, post_if);
                        lemma_chunk_widen(
                            total,
                            d_front.union(d_pi),
                            label_range(k0, k2),
                            outer_allowed,
                            outer_allowed,
                        );
                        assert(total =~= emitted(b0, b1) + seq![AsmLine::CmpRaxZero] + seq![
                            AsmLine::Je(post_if),
                        ] + emitted(b2, b3) + seq![AsmLine::Label(post_if)]);
                        assert(total =~= sp_stmt_lines(*statement, context@, k0));
                    }
                    Result::Ok(())
                },
                Option::Some(es) => {
                    generate_statement(&*tb, &c, counter, out)?;
                    let ghost b3 = out@;
                    let ghost k2 = *counter as int;
                    out.push(AsmLine::Jmp(post_else));
                    out.push(AsmLine::Label(post_if));
                    let ghost b4 = out@;
                    proof {
                        lemma_emit_push(b3, AsmLine::Jmp(post_else));
                        lemma_emit_trans(b0, b3, b3.push(AsmLine::Jmp(post_else)));
                        lemma_emit_push(b3.push(AsmLine::Jmp(post_else)), AsmLine::Label(post_if));
                        lemma_emit_trans(b0, b3.push(AsmLine::Jmp(post_else)), b4);
                        assert(decreases_to!(*statement => statement->If_2));
                    }
                    generate_statement(&**es, &c, counter, out)?;
                    let ghost b5 = out@;
                    let ghost k3 = *counter as int;
                    out.push(AsmLine::Label(post_else));
                    proof {
                        let open_set = outer_allowed.insert(post_if).insert(post_else);
                        let d_cond = label_range(k0, k1);
                        let d_then = label_range(k1 + 1, k2);
                        let d_else = label_range(k2, k3);
                        let d_pi = Set::empty().insert(post_if);
                        let d_pe = Set::empty().insert(post_else);
                        lemma_chunk_widen(emitted(b0, b1), d_cond, d_cond, Set::empty(), open_set);
                        lemma_chunk_plain(AsmLine::CmpRaxZero, Set::empty(), open_set);
                        lemma_chunk_jump(AsmLine::Je(post_if), Set::empty(), open_set);
                        lemma_chunk_join(
                            emitted(b0, b1),
                            seq![AsmLine::CmpRaxZero],
                            d_cond,
                            Set::empty(),
                            open_set,
                        );
                        lemma_chunk_join(
                            emitted(b0, b1) + seq![AsmLine::CmpRaxZero],
                            seq![AsmLine::Je(post_if)],
                            d_cond.union(Set::empty()),
                            Set::empty(),
                            open_set,
                        );
                        assert(emitted(b0, b2) =~= emitted(b0, b1) + seq![AsmLine::CmpRaxZero]
                            + seq![AsmLine::Je(post_if)]);
                        let d_head = d_cond.union(Set::empty()).union(Set::empty());
                        lemma_chunk_widen(emitted(b2, b3), d_then, d_then, outer_allowed, open_set);
                        lemma_emit_trans(b0, b2, b3);
                        lemma_chunk_join(emitted(b0, b2), emitted(b2, b3), d_head, d_then, open_set);
                        lemma_chunk_jump(AsmLine::Jmp(post_else), Set::empty(), open_set);
                        lemma_chunk_join(
                            emitted(b0, b3),
                            seq![AsmLine::Jmp(post_else)],
                            d_head.union(d_then),
                            Set::empty(),
                            open_set,
                        );
                        lemma_chunk_def(AsmLine::Label(post_if), d_pi, open_set);
                        assert(d_head.union(d_then).union(Set::empty()).disjoint(d_pi));
                        lemma_chunk_join(
                            emitted(b0, b3) + seq![AsmLine::Jmp(post_else)],
                            seq![AsmLine::Label(post_if)],
                            d_head.union(d_then).union(Set::empty()),
                            d_pi,
                            open_set,
                        );
                        assert(emitted(b0, b4) =~= emitted(b0, b3) + seq![AsmLine::Jmp(post_else)]
                            + seq![AsmLine::Label(post_if)]);
                        let d_front = d_head.union(d_then).union(Set::empty()).union(d_pi);
                        lemma_chunk_widen(emitted(b4, b5), d_else, d_else, outer_allowed, open_set);
                        lemma_emit_trans(b0, b4, b5);
                        assert(d_front.disjoint(d_else));
                        lemma_chunk_join(emitted(b0, b4), emitted(b4, b5), d_front, d_else, open_set);
                        lemma_emit_push(b5, AsmLine::Label(post_else));
                        lemma_emit_trans(b0, b5, out@);
                        lemma_chunk_def(AsmLine::Label(post_else), d_pe, open_set);
                        assert(d_front.union(d_else).disjoint(d_pe));
                        lemma_chunk_join(
                            emitted(b0, b5),
                            seq![AsmLine::Label(post_else)],
                            d_front.union(d_else),
                            d_pe,
                            open_set,
                        );
                        let d_total = d_front.union(d_else).union(d_pe);
                        let total = emitted(b0, out@);
                        lemma_def_count_concat(
                            emitted(b0, b5),
                            seq![AsmLine::Label(post_else)],
                            post_else,
                        );
                        assert(def_count(seq![AsmLine::Label(post_else)], post_else) > 0) by {
                            assert(seq![AsmLine::Label(post_else)].last() == AsmLine::Label(
                                post_else,
                            ));
                        }
                        assert(defines(total, post_else));
                        lemma_def_count_concat(
                            emitted(b0, b4),
                            emitted(b4, b5) + seq![AsmLine::Label(post_else)],
                            post_if,
                        );
                        lemma_def_count_concat(
                            emitted(b0, b3) + seq![AsmLine::Jmp(post_else)],
                            seq![AsmLine::Label(post_if)],
                            post_if,
                        );
                        assert(def_count(seq![AsmLine::Label(post_if)], post_if) > 0) by {
                            assert(seq![AsmLine::Label(post_if)].last() == AsmLine::Label(post_if));
                        }
                        assert(total =~= emitted(b0, b4) + (emitted(b4, b5) + seq![
                            AsmLine::Label(post_else),
                        ]));
                        assert(defines(total, post_if));
                        assert(open_set =~= outer_allowed.insert(post_else).insert(post_if));
                        lemma_chunk_resolve(
                            total,
                            d_total,
                            outer_allowed.insert(post_else),
                            post_if,
                        );
                        lemma_chunk_resolve(total, d_total, outer_allowed, post_else);
                        lemma_chunk_widen(
                            total,
                            d_total,
                            label_range(k0, k3),
                            outer_allowed,
                            outer_allowed,
                        );
                        assert(emitted(b0, b3) =~= emitted(b0, b1) + seq![AsmLine::CmpRaxZero]
                            + seq![AsmLine::Je(post_if)] + emitted(b2, b3));
                        assert(total =~= emitted(b0, b1) + seq![AsmLine::CmpRaxZero] + seq![
                            AsmLine::Je(post_if),
                        ] + emitted(b2, b3) + seq![AsmLine::Jmp(post_else)] + seq![
                            AsmLine::Label(post_if),
                        ] + emitted(b4, b5) + seq![AsmLine::Label(post_else)]);
                        assert(total =~= sp_stmt_lines(*statement, context@, k0));
                    }
                    Result::Ok(())
                },
            }
        },
        Statement::Compound(items) => {
            proof {
                assert(decreases_to!(*statement => statement->Compound_0));
            }
            generate_item(items, &c, counter, out)?;
            proof {
                lemma_chunk_widen(
                    emitted(b0, out@),
                    label_range(k0, *counter as int),
                    label_range(k0, *counter as int),
                    ctx_allowed(c),
                    outer_allowed,
                );
                assert(emitted(b0, out@) =~= sp_stmt_lines(*statement, context@, k0));
            }
            Result::Ok(())
        },
        Statement::For(init, cond, post, body) => {
            match init {
                Option::Some(expr) => {
                    generate_expression(expr, &c, counter, out)?;
                },
                Option::None => {},
            }
            let ghost b1 = out@;
            let ghost k1 = *counter as int;
            proof {
                lemma_emit_refl(b0);
                lemma_chunk_empty(label_range(k0, k1), Set::<LabelId>::empty());
                assert(decreases_to!(*statement => statement->For_3));
            }
            for_loop(cond, post, body, &c, counter, out, Ghost(*statement))?;
            let ghost b2 = out@;
            let ghost k2 = *counter as int;
            proof {
                lemma_emit_trans(b0, b1, b2);
                lemma_chunk_join(
                    emitted(b0, b1),
                    emitted(b1, b2),
                    label_range(k0, k1),
                    label_range(k1, k2),
                    Set::empty(),
                );
                lemma_chunk_widen(
                    emitted(b0, out@),
                    label_range(k0, k1).union(label_range(k1, k2)),
                    label_range(k0, k2),
                    Set::empty(),
                    outer_allowed,
                );
                assert(emitted(b0, out@) =~= emitted(b0, b1) + emitted(b1, b2));
                assert(emitted(b0, out@) =~= sp_stmt_lines(*statement, context@, k0));
            }
            Result::Ok(())
        },
        Statement::ForDeclaration(decl, cond, post, body) => {
            let mut c2 = c.duplicate();
            let ghost c2pre = c2@;
            generate_declaration(decl, &mut c2, counter, out)?;
            let ghost b1 = out@;
            let ghost k1 = *counter as int;
            proof {
                assert(c2@ =~= sp_decl(*decl, c2pre, k0).1);
                assert(ctx_allowed(c2) =~= outer_allowed);
                assert(decreases_to!(*statement => statement->ForDeclaration_3));
            }
            for_loop(cond, post, body, &c2, counter, out, Ghost(*statement))?;
            let ghost b2 = out@;
            let ghost k2 = *counter as int;
            proof {
                lemma_emit_trans(b0, b1, b2);
                lemma_chunk_join(
                    emitted(b0, b1),
                    emitted(b1, b2),
                    label_range(k0, k1),
                    label_range(k1, k2),
                    Set::empty(),
                );
            }
            out.push(AsmLine::PopRax);
            proof {
                lemma_emit_push(b2, AsmLine::PopRax);
                lemma_chunk_plain_suffix(
                    b0,
                    b2,
                    out@,
                    label_range(k0, k1).union(label_range(k1, k2)),
                );
                lemma_emit_trans(b0, b2, out@);
                lemma_chunk_widen(
                    emitted(b0, out@),
                    label_range(k0, k1).union(label_range(k1, k2)),
                    label_range(k0, k2),
                    Set::empty(),
                    outer_allowed,
                );
                assert(emitted(b0, b2) =~= emitted(b0, b1) + emitted(b1, b2));
                assert(emitted(b0, out@) =~= emitted(b0, b1) + emitted(b1, b2) + seq![
                    AsmLine::PopRax,
                ]);
                assert(emitted(b0, out@) =~= sp_stmt_lines(*statement, context@, k0));
            }
            Result::Ok(())
        },
        Statement::While(cond, body) => {
            let none_post: Option<Expression> = Option::None;
            proof {
                assert(decreases_to!(*statement => statement->While_1));
            }
            for_loop(cond, &none_post, body, &c, counter, out, Ghost(*statement))?;
            proof {
                lemma_chunk_widen(
                    emitted(b0, out@),
                    label_range(k0, *counter as int),
                    label_range(k0, *counter as int),
                    Set::empty(),
                    outer_allowed,
                );
                assert(emitted(b0, out@) =~= sp_stmt_lines(*statement, context@, k0));
            }
            Result::Ok(())
        },
        Statement::DoWhile(cond, body) => {
            let s = fresh_serial(counter)?;
            let loop_label = LabelId { kind: LabelKind::LoopTop, serial: s };
            let break_label = LabelId { kind: LabelKind::PostLoop, serial: s };
            let continue_label = LabelId { kind: LabelKind::DoWhileContinue, serial: s };
            out.push(AsmLine::Label(loop_label));
            let ghost b1 = out@;
            proof {
                lemma_emit_push(b0, AsmLine::Label(loop_label));
                assert(decreases_to!(*statement => statement->DoWhile_1));
            }
            let mut bc = c.duplicate();
            bc.break_label = Option::Some(break_label);
            bc.continue_label = Option::Some(continue_label);
            proof {
                assert(bc@ =~= SpecCtx { brk: Option::Some(break_label), cont: Option::Some(continue_label), ..c@ });
            }
            generate_statement(&**body, &bc, counter, out)?;
            let ghost b2 = out@;
            let ghost k2 = *counter as int;
            out.push(AsmLine::Label(continue_label));
            let ghost b3 = out@;
            proof {
                lemma_emit_push(b2, AsmLine::Label(continue_label));
                lemma_emit_trans(b0, b2, b3);
            }
            generate_expression(cond, &c, counter, out)?;
            let ghost b4 = out@;
            let ghost k3 = *counter as int;
            out.push(AsmLine::CmpRaxZero);
            out.push(AsmLine::Jne(loop_label));
            out.push(AsmLine::Label(break_label));
            proof {
                let open_set = outer_allowed.insert(loop_label).insert(break_label).insert(
                    continue_label,
                );
                let d_lt = Set::empty().insert(loop_label);
                let d_bl = Set::empty().insert(break_label);
                let d_cl = Set::empty().insert(continue_label);
                let d_body = label_range(s as int + 1, k2);
                let d_cond = label_range(k2, k3);
                assert(out@ == b4.push(AsmLine::CmpRaxZero).push(AsmLine::Jne(loop_label)).push(
                    AsmLine::Label(break_label),
                ));
                assert(extends_out(b4, out@));
                lemma_emit_trans(b0, b4, out@);
                // piece chunks
                lemma_chunk_def(AsmLine::Label(loop_label), d_lt, open_set);
                lemma_chunk_widen(emitted(b1, b2), d_body, d_body, ctx_allowed(bc), open_set);
                lemma_chunk_join(
                    seq![AsmLine::Label(loop_label)],
                    emitted(b1, b2),
                    d_lt,
                    d_body,
                    open_set,
                );
                assert(emitted(b0, b2) =~= seq![AsmLine::Label(loop_label)] + emitted(b1, b2));
                lemma_chunk_def(AsmLine::Label(continue_label), d_cl, open_set);
                assert(d_lt.union(d_body).disjoint(d_cl));
                lemma_chunk_join(
                    emitted(b0, b2),
                    seq![AsmLine::Label(continue_label)],
                    d_lt.union(d_body),
                    d_cl,
                    open_set,
                );
                assert(emitted(b0, b3) =~= emitted(b0, b2) + seq![AsmLine::Label(continue_label)]);
                let d_f1 = d_lt.union(d_body).union(d_cl);
                lemma_chunk_widen(emitted(b3, b4), d_cond, d_cond, Set::empty(), open_set);
                lemma_emit_trans(b0, b3, b4);
                assert(d_f1.disjoint(d_cond));
                lemma_chunk_join(emitted(b0, b3), emitted(b3, b4), d_f1, d_cond, open_set);
                let d_f2 = d_f1.union(d_cond);
                lemma_chunk_plain(AsmLine::CmpRaxZero, Set::empty(), open_set);
                lemma_chunk_jump(AsmLine::Jne(loop_label), Set::empty(), open_set);
                lemma_chunk_def(AsmLine::Label(break_label), d_bl, open_set);
                lemma_chunk_join(
                    seq![AsmLine::CmpRaxZero],
                    seq![AsmLine::Jne(loop_label)],
                    Set::empty(),
                    Set::empty(),
                    open_set,
                );
                lemma_chunk_join(
                    seq![AsmLine::CmpRaxZero] + seq![AsmLine::Jne(loop_label)],
                    seq![AsmLine::Label(break_label)],
                    Set::empty().union(Set::empty()),
                    d_bl,
                    open_set,
                );
                assert(emitted(b4, out@) =~= seq![AsmLine::CmpRaxZero] + seq![
                    AsmLine::Jne(loop_label),
                ] + seq![AsmLine::Label(break_label)]);
                assert(d_f2.disjoint(Set::empty().union(Set::empty()).union(d_bl)));
                lemma_chunk_join(
                    emitted(b0, b4),
                    emitted(b4, out@),
                    d_f2,
                    Set::empty().union(Set::empty()).union(d_bl),
                    open_set,
                );
                let d_total = d_f2.union(Set::empty().union(Set::empty()).union(d_bl));
                let total = emitted(b0, out@);
                // all three labels are defined: close the chunk
                let tail3 = seq![AsmLine::CmpRaxZero] + seq![AsmLine::Jne(loop_label)] + seq![
                    AsmLine::Label(break_label),
                ];
                assert(total =~= emitted(b0, b4) + tail3);
                lemma_def_count_concat(emitted(b0, b4), tail3, break_label);
                lemma_def_count_concat(
                    seq![AsmLine::CmpRaxZero] + seq![AsmLine::Jne(loop_label)],
                    seq![AsmLine::Label(break_label)],
                    break_label,
                );
                assert(def_count(seq![AsmLine::Label(break_label)], break_label) > 0) by {
                    assert(seq![AsmLine::Label(break_label)].last() == AsmLine::Label(break_label));
                }
                assert(defines(total, break_label));
                assert(def_count(seq![AsmLine::Label(loop_label)], loop_label) > 0) by {
                    assert(seq![AsmLine::Label(loop_label)].last() == AsmLine::Label(loop_label));
                }
                lemma_def_count_concat(
                    seq![AsmLine::Label(loop_label)],
                    emitted(b1, b2),
                    loop_label,
                );
                lemma_def_count_concat(
                    emitted(b0, b2),
                    seq![AsmLine::Label(continue_label)],
                    loop_label,
                );
                lemma_def_count_concat(emitted(b0, b3), emitted(b3, b4), loop_label);
                lemma_def_count_concat(emitted(b0, b4), tail3, loop_label);
                assert(defines(total, loop_label));
                assert(def_count(seq![AsmLine::Label(continue_label)], continue_label) > 0) by {
                    assert(seq![AsmLine::Label(continue_label)].last() == AsmLine::Label(
                        continue_label,
                    ));
                }
                lemma_def_count_concat(
                    emitted(b0, b2),
                    seq![AsmLine::Label(continue_label)],
                    continue_label,
                );
                lemma_def_count_concat(emitted(b0, b3), emitted(b3, b4), continue_label);
                lemma_def_count_concat(emitted(b0, b4), tail3, continue_label);
                assert(defines(total, continue_label));
                assert(ctx_allowed(bc) =~= Set::empty().insert(break_label).insert(
                    continue_label,
                ));
                lemma_chunk_resolve(
                    total,
                    d_total,
                    outer_allowed.insert(loop_label).insert(break_label),
                    continue_label,
                );
                lemma_chunk_resolve(
                    total,
                    d_total,
                    outer_allowed.insert(loop_label),
                    break_label,
                );
                lemma_chunk_resolve(total, d_total, outer_allowed, loop_label);
                lemma_chunk_widen(
                    total,
                    d_total,
                    label_range(k0, k3),
                    outer_allowed,
                    outer_allowed,
                );
                assert(total =~= seq![AsmLine::Label(loop_label)] + emitted(b1, b2) + seq![
                    AsmLine::Label(continue_label),
                ] + emitted(b3, b4) + seq![AsmLine::CmpRaxZero] + seq![AsmLine::Jne(loop_label)]
                    + seq![AsmLine::Label(break_label)]);
                assert(total =~= sp_stmt_lines(*statement, context@, k0));
            }
            Result::Ok(())
        },
        Statement::Break => {
            match c.break_label {
                Option::Some(lbl) => {
                    out.push(AsmLine::Jmp(lbl));
                    proof {
                        lemma_emit_push(b0, AsmLine::Jmp(lbl));
                        assert(outer_allowed.contains(lbl));
                        lemma_chunk_jump(AsmLine::Jmp(lbl), label_range(k0, k0), outer_allowed);
                        assert(emitted(b0, out@) =~= sp_stmt_lines(*statement, context@, k0));
                    }
                    Result::Ok(())
                },
                Option::None => Result::Err(GenError::BreakOutsideLoop),
            }
        },
        Statement::Continue => {
            match c.continue_label {
                Option::Some(lbl) => {
                    out.push(AsmLine::Jmp(lbl));
                    proof {
                        lemma_emit_push(b0, AsmLine::Jmp(lbl));
                        assert(outer_allowed.contains(lbl));
                        lemma_chunk_jump(AsmLine::Jmp(lbl), label_range(k0, k0), outer_allowed);
                        assert(emitted(b0, out@) =~= sp_stmt_lines(*statement, context@, k0));
                    }
                    Result::Ok(())
                },
                Option::None => Result::Err(GenError::ContinueOutsideLoop),
            }
        },
    }
}

/// The shared loop-lowering routine for `for`, `for` with a declaration,
/// and `while`: top label, condition, exit on false, body under fresh
/// break and continue targets, the continue label, the optional
/// post-expression, the back jump, and the break label. The emitted chunk
/// is fully closed: the loop's own labels resolve within it.
fn for_loop(
    condition: &Expression,
    post_expression: &Option<Expression>,
    body: &Statement,
    context: &Context,
    counter: &mut u64,
    out: &mut Vec<AsmLine>,
    Ghost(parent): Ghost<Statement>,
) -> (r: Result<(), GenError>)
    requires
        decreases_to!(parent => *body),
    ensures
        extends_out(old(out)@, final(out)@),
        *old(counter) <= *final(counter),
        r is Ok ==> chunk_ok(
            emitted(old(out)@, final(out)@),
            label_range(*old(counter) as int, *final(counter) as int),
            Set::empty(),
        ),
        ({
            let (ge, k1) = sp_for(
                *condition,
                *post_expression,
                *body,
                context@,
                *old(counter) as int,
            );
            &&& *final(counter) as int == k1
            &&& match r {
                Result::Ok(_) => ge is None,
                Result::Err(err) => ge == Option::Some(err@),
            }
        }),
        r is Ok ==> emitted(old(out)@, final(out)@) =~= sp_for_lines(
            *condition,
            *post_expression,
            *body,
            context@,
            *old(counter) as int,
        ),
    decreases parent, 0int,
{
    let ghost b0 = out@;
    let ghost k0 = *counter as int;
    let s = fresh_serial(counter)?;
    let loop_label = LabelId { kind: LabelKind::LoopTop, serial: s };
    let post_loop = LabelId { kind: LabelKind::PostLoop, serial: s };
    let continue_label = LabelId { kind: LabelKind::LoopContinue, serial: s };
    out.push(AsmLine::Label(loop_label));
    let ghost b1 = out@;
    proof {
        lemma_emit_push(b0, AsmLine::Label(loop_label));
    }
    generate_expression(condition, context, counter, out)?;
    let ghost b2 = out@;
    let ghost k1 = *counter as int;
    out.push(AsmLine::CmpRaxZero);
    out.push(AsmLine::Je(post_loop));
    let ghost b3 = out@;
    proof {
        assert(out@ == b2.push(AsmLine::CmpRaxZero).push(AsmLine::Je(post_loop)));
        assert(extends_out(b2, b3));
        lemma_emit_trans(b0, b2, b3);
    }
    let mut bc = context.duplicate();
    bc.break_label = Option::Some(post_loop);
    bc.continue_label = Option::Some(continue_label);
    proof {
        assert(bc@ =~= SpecCtx { brk: Option::Some(post_loop), cont: Option::Some(continue_label), ..context@ });
    }
    generate_statement(body, &bc, counter, out)?;
    let ghost b4 = out@;
    let ghost k2 = *counter as int;
    out.push(AsmLine::Label(continue_label));
    let ghost b5 = out@;
    proof {
        lemma_emit_push(b4, AsmLine::Label(continue_label));
        lemma_emit_trans(b0, b4, b5);
    }
    match post_expression {
        Option::Some(expr) => {
            generate_expression(expr, context, counter, out)?;
        },
        Option::None => {},
    }
    let ghost b6 = out@;
    let ghost k3 = *counter as int;
    proof {
        if post_expression is None {
            lemma_emit_refl(b5);
            lemma_chunk_empty(label_range(k2, k3), Set::<LabelId>::empty());
        }
    }
    out.push(AsmLine::Jmp(loop_label));
    out.push(AsmLine::Label(post_loop));
    proof {
        let open_set = Set::empty().insert(loop_label).insert(post_loop).insert(continue_label);
        let d_lt = Set::empty().insert(loop_label);
        let d_pl = Set::empty().insert(post_loop);
        let d_cl = Set::empty().insert(continue_label);
        let d_cond = label_range(s as int + 1, k1);
        let d_body = label_range(k1, k2);
        let d_post = label_range(k2, k3);
        assert(out@ == b6.push(AsmLine::Jmp(loop_label)).push(AsmLine::Label(post_loop)));
        assert(extends_out(b6, out@));
        lemma_emit_trans(b0, b6, out@);
        lemma_chunk_def(AsmLine::Label(loop_label), d_lt, open_set);
        lemma_chunk_widen(emitted(b1, b2), d_cond, d_cond, Set::empty(), open_set);
        lemma_chunk_join(seq![AsmLine::Label(loop_label)], emitted(b1, b2), d_lt, d_cond, open_set);
        assert(emitted(b0, b2) =~= seq![AsmLine::Label(loop_label)] + emitted(b1, b2));
        let d_f1 = d_lt.union(d_cond);
        lemma_chunk_plain(AsmLine::CmpRaxZero, Set::empty(), open_set);
        lemma_chunk_jump(AsmLine::Je(post_loop), Set::empty(), open_set);
        lemma_chunk_join(
            seq![AsmLine::CmpRaxZero],
            seq![AsmLine::Je(post_loop)],
            Set::empty(),
            Set::empty(),
            open_set,
        );
        lemma_chunk_join(
            emitted(b0, b2),
            seq![AsmLine::CmpRaxZero] + seq![AsmLine::Je(post_loop)],
            d_f1,
            Set::empty().union(Set::empty()),
            open_set,
        );
        assert(emitted(b0, b3) =~= emitted(b0, b2) + (seq![AsmLine::CmpRaxZero] + seq![
            AsmLine::Je(post_loop),
        ]));
        let d_f2 = d_f1.union(Set::empty().union(Set::empty()));
        assert(ctx_allowed(bc) =~= Set::empty().insert(post_loop).insert(continue_label));
        lemma_chunk_widen(emitted(b3, b4), d_body, d_body, ctx_allowed(bc), open_set);
        lemma_emit_trans(b0, b3, b4);
        assert(d_f2.disjoint(d_body));
        lemma_chunk_join(emitted(b0, b3), emitted(b3, b4), d_f2, d_body, open_set);
        let d_f3 = d_f2.union(d_body);
        lemma_chunk_def(AsmLine::Label(continue_label), d_cl, open_set);
        assert(d_f3.disjoint(d_cl));
        lemma_chunk_join(
            emitted(b0, b4),
            seq![AsmLine::Label(continue_label)],
            d_f3,
            d_cl,
            open_set,
        );
        assert(emitted(b0, b5) =~= emitted(b0, b4) + seq![AsmLine::Label(continue_label)]);
        let d_f4 = d_f3.union(d_cl);
        lemma_chunk_widen(emitted(b5, b6), d_post, d_post, Set::empty(), open_set);
        lemma_emit_trans(b0, b5, b6);
        assert(d_f4.disjoint(d_post));
        lemma_chunk_join(emitted(b0, b5), emitted(b5, b6), d_f4, d_post, open_set);
        let d_f5 = d_f4.union(d_post);
        lemma_chunk_jump(AsmLine::Jmp(loop_label), Set::empty(), open_set);
        lemma_chunk_def(AsmLine::Label(post_loop), d_pl, open_set);
        lemma_chunk_join(
            seq![AsmLine::Jmp(loop_label)],
            seq![AsmLine::Label(post_loop)],
            Set::empty(),
            d_pl,
            open_set,
        );
        assert(emitted(b6, out@) =~= seq![AsmLine::Jmp(loop_label)] + seq![
            AsmLine::Label(post_loop),
        ]);
        assert(d_f5.disjoint(Set::empty().union(d_pl)));
        lemma_chunk_join(
            emitted(b0, b6),
            emitted(b6, out@),
            d_f5,
            Set::empty().union(d_pl),
            open_set,
        );
        let d_total = d_f5.union(Set::empty().union(d_pl));
        let total = emitted(b0, out@);
        // the three labels are defined: close the chunk
        let tail2 = seq![AsmLine::Jmp(loop_label)] + seq![AsmLine::Label(post_loop)];
        assert(total =~= emitted(b0, b6) + tail2);
        lemma_def_count_concat(emitted(b0, b6), tail2, post_loop);
        lemma_def_count_concat(
            seq![AsmLine::Jmp(loop_label)],
            seq![AsmLine::Label(post_loop)],
            post_loop,
        );
        assert(def_count(seq![AsmLine::Label(post_loop)], post_loop) > 0) by {
            assert(seq![AsmLine::Label(post_loop)].last() == AsmLine::Label(post_loop));
        }
        assert(defines(total, post_loop));
        assert(def_count(seq![AsmLine::Label(loop_label)], loop_label) > 0) by {
            assert(seq![AsmLine::Label(loop_label)].last() == AsmLine::Label(loop_label));
        }
        lemma_def_count_concat(seq![AsmLine::Label(loop_label)], emitted(b1, b2), loop_label);
        lemma_def_count_concat(
            emitted(b0, b2),
            seq![AsmLine::CmpRaxZero] + seq![AsmLine::Je(post_loop)],
            loop_label,
        );
        lemma_def_count_concat(emitted(b0, b3), emitted(b3, b4), loop_label);
        lemma_def_count_concat(
            emitted(b0, b4),
            seq![AsmLine::Label(continue_label)],
            loop_label,
        );
        lemma_def_count_concat(emitted(b0, b5), emitted(b5, b6), loop_label);
        lemma_def_count_concat(emitted(b0, b6), tail2, loop_label);
        assert(defines(total, loop_label));
        assert(def_count(seq![AsmLine::Label(continue_label)], continue_label) > 0) by {
            assert(seq![AsmLine::Label(continue_label)].last() == AsmLine::Label(continue_label));
        }
        lemma_def_count_concat(
            emitted(b0, b4),
            seq![AsmLine::Label(continue_label)],
            continue_label,
        );
        lemma_def_count_concat(emitted(b0, b5), emitted(b5, b6), continue_label);
        lemma_def_count_concat(emitted(b0, b6), tail2, continue_label);
        assert(defines(total, continue_label));
        lemma_chunk_resolve(
            total,
            d_total,
            Set::empty().insert(loop_label).insert(post_loop),
            continue_label,
        );
        lemma_chunk_resolve(total, d_total, Set::empty().insert(loop_label), post_loop);
        lemma_chunk_resolve(total, d_total, Set::empty(), loop_label);
        lemma_chunk_widen(total, d_total, label_range(k0, k3), Set::empty(), Set::empty());
        assert(emitted(b0, b3) =~= seq![AsmLine::Label(loop_label)] + emitted(b1, b2) + seq![
            AsmLine::CmpRaxZero,
        ] + seq![AsmLine::Je(post_loop)]);
        assert(total =~= seq![AsmLine::Label(loop_label)] + emitted(b1, b2) + seq![
            AsmLine::CmpRaxZero,
        ] + seq![AsmLine::Je(post_loop)] + emitted(b3, b4) + seq![
            AsmLine::Label(continue_label),
        ] + emitted(b5, b6) + seq![AsmLine::Jmp(loop_label)] + seq![AsmLine::Label(post_loop)]);
        assert(total =~= sp_for_lines(*condition, *post_expression, *body, context@, k0));
    }
    Result::Ok(())
}

/// Lowers a block's items in order under one evolving context: each
/// declaration extends the block's scope, and the loop labels pass through
/// unchanged.
pub fn generate_item(
    item: &Vec<Item>,
    context: &Context,
    counter: &mut u64,
    out: &mut Vec<AsmLine>,
) -> (r: Result<(), GenError>)
    ensures
        extends_out(old(out)@, final(out)@),
        *old(counter) <= *final(counter),
        r is Ok ==> chunk_ok(
            emitted(old(out)@, final(out)@),
            label_range(*old(counter) as int, *final(counter) as int),
            ctx_allowed(*context),
        ),
        ({
            let (ge, _c2, k1) = sp_items(item@, context@, *old(counter) as int);
            &&& *final(counter) as int == k1
            &&& match r {
                Result::Ok(_) => ge is None,
                Result::Err(err) => ge == Option::Some(err@),
            }
        }),
        r is Ok ==> emitted(old(out)@, final(out)@) =~= sp_items_lines(
            item@,
            context@,
            *old(counter) as int,
        ),
    decreases *item, 0int,
{
    let ghost b0 = out@;
    let ghost k0 = *counter as int;
    let ghost outer_allowed = ctx_allowed(*context);
    let mut c = context.duplicate();
    proof {
        lemma_emit_refl(b0);
        lemma_chunk_empty(label_range(k0, k0), outer_allowed);
        assert(c@ =~= context@);
        assert(item@.skip(0) =~= item@);
    }
    let n = item.len();
    let mut i: usize = 0;
    while i < n
        invariant
            i <= n,
            n == item@.len(),
            c.break_label == context.break_label,
            c.continue_label == context.continue_label,
            outer_allowed == ctx_allowed(*context),
            old(out)@ == b0,
            *old(counter) as int == k0,
            extends_out(b0, out@),
            *old(counter) <= *counter,
            chunk_ok(emitted(b0, out@), label_range(k0, *counter as int), outer_allowed),
            sp_items(item@, context@, k0) == sp_items(
                item@.skip(i as int),
                c@,
                *counter as int,
            ),
            sp_items_lines(item@, context@, k0) =~= emitted(b0, out@) + sp_items_lines(
                item@.skip(i as int),
                c@,
                *counter as int,
            ),
        decreases n - i,
    {
        let ghost bpre = out@;
        let ghost kpre = *counter as int;
        let ghost cpre = c@;
        proof {
            assert(item@.skip(i as int)[0] == item@[i as int]);
            assert(item@.skip(i as int).drop_first() =~= item@.skip(i as int + 1));
        }
        match &item[i] {
            Item::Declaration(d) => {
                match generate_declaration(d, &mut c, counter, out) {
                    Result::Ok(_) => {},
                    Result::Err(e) => {
                        proof {
                            assert(sp_decl(*d, cpre, kpre) == (
                                Option::Some(e@),
                                sp_decl(*d, cpre, kpre).1,
                                *counter as int,
                            ));
                        }
                        return Result::Err(e);
                    },
                }
                proof {
                    assert(c@ =~= sp_decl(*d, cpre, kpre).1);
                    lemma_chunk_widen(
                        emitted(bpre, out@),
                        label_range(kpre, *counter as int),
                        label_range(kpre, *counter as int),
                        Set::empty(),
                        outer_allowed,
                    );
                }
            },
            Item::Statement(st) => {
                proof {
                    assert(decreases_to!(*item => item@));
                    assert(decreases_to!(item@ => item@[i as int]));
                    assert(ctx_allowed(c) =~= outer_allowed);
                }
                match generate_statement(st, &c, counter, out) {
                    Result::Ok(_) => {},
                    Result::Err(e) => {
                        return Result::Err(e);
                    },
                }
            },
        }
        proof {
            lemma_emit_trans(b0, bpre, out@);
            lemma_chunk_join(
                emitted(b0, bpre),
                emitted(bpre, out@),
                label_range(k0, kpre),
                label_range(kpre, *counter as int),
                outer_allowed,
            );
            lemma_chunk_widen(
                emitted(b0, out@),
                label_range(k0, kpre).union(label_range(kpre, *counter as int)),
                label_range(k0, *counter as int),
                outer_allowed,
                outer_allowed,
            );
            assert(sp_items_lines(item@, context@, k0) =~= emitted(b0, out@) + sp_items_lines(
                item@.skip(i as int + 1),
                c@,
                *counter as int,
            ));
        }
        i = i + 1;
    }
    proof {
        assert(item@.skip(n as int) =~= Seq::<Item>::empty());
    }
    Result::Ok(())
}


/// Every jump in the listing has exactly one definition of its target:
/// no unresolved and no doubly defined labels.
pub open spec fn labels_resolved(lines: Seq<AsmLine>) -> bool {
    forall|i: int|
        0 <= i < lines.len() && jump_target(#[trigger] lines[i]) is Some ==> def_count(
            lines,
            jump_target(lines[i])->Some_0,
        ) == 1
}

/// A chunk closed with no outside targets resolves all its labels: each
/// jump's target is defined exactly once in the chunk.
pub proof fn lemma_chunk_labels_resolved(lines: Seq<AsmLine>, d: Set<LabelId>)
    requires
        chunk_ok(lines, d, Set::empty()),
    ensures
        labels_resolved(lines),
{
    assert forall|i: int|
        0 <= i < lines.len() && jump_target(#[trigger] lines[i]) is Some implies def_count(
        lines,
        jump_target(lines[i])->Some_0,
    ) == 1 by {
        let t = jump_target(lines[i])->Some_0;
        assert(defines(lines, t));
    }
}

/// Two label-closed chunks generated over disjoint counter ranges — one
/// run of the generator and any later run with the counter where the
/// first left it — define no label in common: re-running generation
/// cannot collide on label names, because the counter keeps advancing.
pub proof fn lemma_runs_share_no_label(
    a: Seq<AsmLine>,
    b: Seq<AsmLine>,
    k0: int,
    k1: int,
    k2: int,
    k3: int,
)
    requires
        chunk_ok(a, label_range(k0, k1), Set::empty()),
        chunk_ok(b, label_range(k2, k3), Set::empty()),
        k1 <= k2,
    ensures
        forall|id: LabelId| defines(a, id) ==> !defines(b, id),
{
    assert forall|id: LabelId| defines(a, id) implies !defines(b, id) by {
        lemma_def_pos(a, id);
        let i = choose|i: int|
            0 <= i < a.len() && def_label(#[trigger] a[i]) == Option::Some(id);
        assert(label_range(k0, k1).contains(id));
        if defines(b, id) {
            lemma_def_pos(b, id);
            let j = choose|j: int|
                0 <= j < b.len() && def_label(#[trigger] b[j]) == Option::Some(id);
            assert(label_range(k2, k3).contains(id));
            assert(false);
        }
    }
}

/// Lowers one function declaration: nothing for a prototype; for a
/// definition, the global-visibility line, the entry label, the prologue,
/// the body under a fresh context seeded with the parameters, and a
/// default return of zero.
fn generate_astnode(
    name: &String,
    params: &Vec<String>,
    body: &Option<Vec<Item>>,
    counter: &mut u64,
    out: &mut Vec<AsmLine>,
) -> (r: Result<(), GenError>)
    ensures
        extends_out(old(out)@, final(out)@),
        *old(counter) <= *final(counter),
        r is Ok ==> chunk_ok(
            emitted(old(out)@, final(out)@),
            label_range(*old(counter) as int, *final(counter) as int),
            Set::empty(),
        ),
        ({
            let (ge, k1) = sp_fun_parts(params@, *body, *old(counter) as int);
            &&& *final(counter) as int == k1
            &&& match r {
                Result::Ok(_) => ge is None,
                Result::Err(err) => ge == Option::Some(err@),
            }
        }),
        r is Ok ==> emitted(old(out)@, final(out)@) =~= sp_fun_lines(
            *name,
            params@,
            *body,
            *old(counter) as int,
        ),
{
    let ghost b0 = out@;
    let ghost k0 = *counter as int;
    match body {
        Option::None => {
            proof {
                lemma_emit_refl(b0);
                lemma_chunk_empty(label_range(k0, k0), Set::<LabelId>::empty());
            }
            Result::Ok(())
        },
        Option::Some(items) => {
            let g_line = AsmLine::Global(name.clone());
            let f_line = AsmLine::FunLabel(name.clone());
            let ghost g_l = g_line;
            let ghost f_l = f_line;
            out.push(g_line);
            out.push(f_line);
            out.push(AsmLine::PushRbp);
            out.push(AsmLine::MovRbpRsp);
            let ghost b1 = out@;
            proof {
                assert(extends_out(b0, b1));
                lemma_emit_refl(b0);
                lemma_chunk_empty(label_range(k0, k0), Set::<LabelId>::empty());
                lemma_chunk_plain_suffix(b0, b0, b1, label_range(k0, k0));
            }
            if params.len() as u64 > (i64::MAX as u64 - 16) / 8 {
                return Result::Err(GenError::FrameOverflow);
            }
            let context = Context::new(params);
            proof {
                assert(ctx_allowed(context) =~= Set::<LabelId>::empty());
                assert(context@ =~= sp_fun_ctx(params@));
            }
            generate_item(items, &context, counter, out)?;
            let ghost b2 = out@;
            let ghost k2 = *counter as int;
            out.push(AsmLine::MovImm(0));
            let ghost b3 = out@;
            proof {
                lemma_emit_push(b2, AsmLine::MovImm(0));
            }
            generate_function_end(out);
            proof {
                lemma_emit_trans(b2, b3, out@);
                assert(emitted(b2, out@) =~= seq![AsmLine::MovImm(0)] + seq![
                    AsmLine::MovRspRbp,
                    AsmLine::PopRbp,
                    AsmLine::Ret,
                ]);
                lemma_emit_trans(b0, b1, b2);
                lemma_chunk_join(
                    emitted(b0, b1),
                    emitted(b1, b2),
                    label_range(k0, k0),
                    label_range(k0, k2),
                    Set::empty(),
                );
                assert(extends_out(b2, out@));
                assert(forall|i: int|
                    b2.len() <= i < out@.len() ==> def_label(#[trigger] out@[i]) is None
                        && jump_target(out@[i]) is None) by {
                    assert(emitted(b2, out@) =~= seq![
                        AsmLine::MovImm(0),
                        AsmLine::MovRspRbp,
                        AsmLine::PopRbp,
                        AsmLine::Ret,
                    ]);
                }
                lemma_chunk_plain_suffix(
                    b0,
                    b2,
                    out@,
                    label_range(k0, k0).union(label_range(k0, k2)),
                );
                lemma_chunk_widen(
                    emitted(b0, out@),
                    label_range(k0, k0).union(label_range(k0, k2)),
                    label_range(k0, k2),
                    Set::empty(),
                    Set::empty(),
                );
                assert(emitted(b0, b1) =~= seq![g_l] + seq![f_l] + seq![AsmLine::PushRbp] + seq![
                    AsmLine::MovRbpRsp,
                ]);
                lemma_emit_trans(b0, b1, b2);
                lemma_emit_trans(b0, b2, out@);
                assert(emitted(b0, out@) =~= seq![g_l] + seq![f_l] + seq![AsmLine::PushRbp]
                    + seq![AsmLine::MovRbpRsp] + emitted(b1, b2) + seq![AsmLine::MovImm(0)]
                    + seq![AsmLine::MovRspRbp, AsmLine::PopRbp, AsmLine::Ret]);
                assert(emitted(b0, out@) =~= sp_fun_lines(*name, params@, *body, k0));
            }
            Result::Ok(())
        },
    }
}

/// Lowers every function of the program in order.
pub fn generate_astnodes(asts: &Vec<AstNode>, counter: &mut u64, out: &mut Vec<AsmLine>) -> (r:
    Result<(), GenError>)
    ensures
        extends_out(old(out)@, final(out)@),
        *old(counter) <= *final(counter),
        r is Ok ==> chunk_ok(
            emitted(old(out)@, final(out)@),
            label_range(*old(counter) as int, *final(counter) as int),
            Set::empty(),
        ),
        ({
            let (ge, k1) = sp_funs(asts@, *old(counter) as int);
            &&& *final(counter) as int == k1
            &&& match r {
                Result::Ok(_) => ge is None,
                Result::Err(err) => ge == Option::Some(err@),
            }
        }),
        r is Ok ==> emitted(old(out)@, final(out)@) =~= sp_funs_lines(
            asts@,
            *old(counter) as int,
        ),
{
    let ghost b0 = out@;
    let ghost k0 = *counter as int;
    proof {
        lemma_emit_refl(b0);
        lemma_chunk_empty(label_range(k0, k0), Set::<LabelId>::empty());
        assert(asts@.skip(0) =~= asts@);
    }
    let n = asts.len();
    let mut i: usize = 0;
    while i < n
        invariant
            i <= n,
            n == asts@.len(),
            old(out)@ == b0,
            *old(counter) as int == k0,
            extends_out(b0, out@),
            *old(counter) <= *counter,
            chunk_ok(emitted(b0, out@), label_range(k0, *counter as int), Set::empty()),
            sp_funs(asts@, k0) == sp_funs(asts@.skip(i as int), *counter as int),
            sp_funs_lines(asts@, k0) =~= emitted(b0, out@) + sp_funs_lines(
                asts@.skip(i as int),
                *counter as int,
            ),
        decreases n - i,
    {
        let ghost bpre = out@;
        let ghost kpre = *counter as int;
        proof {
            assert(asts@.skip(i as int)[0] == asts@[i as int]);
            assert(asts@.skip(i as int).drop_first() =~= asts@.skip(i as int + 1));
        }
        match &asts[i] {
            AstNode::AstNode(nm, ps, bd) => {
                match generate_astnode(nm, ps, bd, counter, out) {
                    Result::Ok(_) => {},
                    Result::Err(e) => {
                        return Result::Err(e);
                    },
                }
            },
        }
        proof {
            lemma_emit_trans(b0, bpre, out@);
            lemma_chunk_join(
                emitted(b0, bpre),
                emitted(bpre, out@),
                label_range(k0, kpre),
                label_range(kpre, *counter as int),
                Set::empty(),
            );
            lemma_chunk_widen(
                emitted(b0, out@),
                label_range(k0, kpre).union(label_range(kpre, *counter as int)),
                label_range(k0, *counter as int),
                Set::empty(),
                Set::empty(),
            );
            assert(sp_funs_lines(asts@, k0) =~= emitted(b0, out@) + sp_funs_lines(
                asts@.skip(i as int + 1),
                *counter as int,
            ));
        }
        i = i + 1;
    }
    proof {
        assert(asts@.skip(n as int) =~= Seq::<AstNode>::empty());
    }
    Result::Ok(())
}

/// Lowers a whole program into an assembly listing, drawing label serials
/// from the caller's counter.
///
/// On success the listing opens with the syntax-mode directive, every
/// label defined in it carries a serial drawn during this run, and the
/// listing has no unresolved and no doubly defined labels
/// (`labels_resolved`). The counter never moves backwards, so listings
/// from consecutive runs over one counter share no label
/// (`lemma_runs_share_no_label`).
pub fn generate(ast: &Ast, counter: &mut u64) -> (r: Result<Vec<AsmLine>, GenError>)
    ensures
        *old(counter) <= *final(counter),
        r matches Result::Ok(lines) ==> {
            &&& lines@.len() >= 1 && lines@[0] == AsmLine::SyntaxDirective
            &&& chunk_ok(
                lines@,
                label_range(*old(counter) as int, *final(counter) as int),
                Set::empty(),
            )
            &&& labels_resolved(lines@)
        },
        ({
            let (ge, k1) = sp_prog(*ast, *old(counter) as int);
            &&& *final(counter) as int == k1
            &&& match r {
                Result::Ok(_) => ge is None,
                Result::Err(err) => ge == Option::Some(err@),
            }
        }),
        r matches Result::Ok(lines) ==> lines@ =~= sp_prog_lines(*ast, *old(counter) as int),
{
    let ghost k0 = *counter as int;
    let mut out: Vec<AsmLine> = Vec::new();
    out.push(AsmLine::SyntaxDirective);
    let ghost b1 = out@;
    match ast {
        Ast::Ast(asts) => {
            match generate_astnodes(asts, counter, &mut out) {
                Result::Ok(_) => {},
                Result::Err(e) => {
                    return Result::Err(e);
                },
            }
        },
    }
    proof {
        lemma_chunk_plain(AsmLine::SyntaxDirective, label_range(k0, k0), Set::<LabelId>::empty());
        assert(b1 =~= Seq::<AsmLine>::empty().push(AsmLine::SyntaxDirective));
        assert(seq![AsmLine::SyntaxDirective] =~= b1);
        lemma_chunk_join(
            b1,
            emitted(b1, out@),
            label_range(k0, k0),
            label_range(k0, *counter as int),
            Set::empty(),
        );
        assert(out@ =~= b1 + emitted(b1, out@));
        lemma_chunk_widen(
            out@,
            label_range(k0, k0).union(label_range(k0, *counter as int)),
            label_range(k0, *counter as int),
            Set::empty(),
            Set::empty(),
        );
        lemma_chunk_labels_resolved(out@, label_range(k0, *counter as int));
        assert(out@ =~= sp_prog_lines(*ast, k0));
    }
    Result::Ok(out)
}


/// Draws the next number from the counter and hands it back as a suffix:
/// an underscore followed by the number's decimal digits.
pub fn unique_suffix(counter: &mut u64) -> (r: String)
    requires
        *old(counter) < u64::MAX,
    ensures
        r@ == seq!['_'] + spec_digits(*old(counter) as int),
        *final(counter) == *old(counter) + 1,
{
    let n = *counter;
    *counter = *counter + 1;
    let mut suffix = String::from_str("_");
    let d = u64_text(n);
    suffix.append(d.as_str());
    proof {
        reveal_strlit("_");
        assert(suffix@ =~= seq!['_'] + spec_digits(n as int));
    }
    suffix
}

/// Concatenates a suffix onto a word.
pub fn add_suffix(word: &str, suffix: &str) -> (r: String)
    ensures
        r@ == word@ + suffix@,
{
    let mut w = word.to_owned();
    w.append(suffix);
    w
}


/// What lowering a declaration does besides emitting code: the error it
/// stops with in evaluation order — a duplicate name in the block's scope,
/// then the initializer's own error, then frame-offset exhaustion — and
/// the context and counter afterwards.
pub open spec fn sp_decl(d: Declaration, c: SpecCtx, k: int) -> (
    Option<SpecGenError>,
    SpecCtx,
    int,
) {
    match d {
        Declaration::Declaration(name, init) => {
            if c.scope.contains(name@) {
                (Option::Some(SpecGenError::DuplicateDeclaration(name@)), c, k)
            } else {
                let (ge, k1) = sp_opt_expr(init, c.vars, k);
                if ge is Some {
                    (ge, c, k1)
                } else if c.si < i64::MIN + 8 {
                    (Option::Some(SpecGenError::FrameOverflow), c, k1)
                } else {
                    (
                        Option::None,
                        SpecCtx {
                            vars: c.vars.insert(name@, c.si),
                            scope: c.scope.insert(name@),
                            si: c.si - 8,
                            ..c
                        },
                        k1,
                    )
                }
            }
        },
    }
}

/// What lowering a statement does besides emitting code: the error it
/// stops with, if any, and where the label counter stands afterwards.
/// The statement runs under a scope-reset copy of the context; each
/// labelled construct draws one serial, shared by its labels, and fails
/// only when the counter is exhausted.
pub open spec fn sp_stmt(s: Statement, c: SpecCtx, k: int) -> (Option<SpecGenError>, int)
    decreases s, 0int,
{
    let cr = SpecCtx { scope: Set::empty(), ..c };
    match s {
        Statement::Expression(oe) => sp_opt_expr(oe, cr.vars, k),
        Statement::Return(e) => sp_expr(e, cr.vars, k),
        Statement::If(cond, tb, eb) => {
            let (g1, k1) = sp_expr(cond, cr.vars, k);
            if g1 is Some {
                (g1, k1)
            } else if k1 == u64::MAX {
                (Option::Some(SpecGenError::LabelOverflow), k1)
            } else {
                let (g2, k2) = sp_stmt(*tb, cr, k1 + 1);
                if g2 is Some {
                    (g2, k2)
                } else {
                    match eb {
                        Option::None => (Option::None, k2),
                        Option::Some(es) => sp_stmt(*es, cr, k2),
                    }
                }
            }
        },
        Statement::Compound(items) => {
            let (g1, _c2, k1) = sp_items(items@, cr, k);
            (g1, k1)
        },
        Statement::For(init, cond, post, body) => {
            let (g1, k1) = sp_opt_expr(init, cr.vars, k);
            if g1 is Some {
                (g1, k1)
            } else {
                sp_for(cond, post, *body, cr, k1)
            }
        },
        Statement::ForDeclaration(decl, cond, post, body) => {
            let (g1, c2, k1) = sp_decl(decl, cr, k);
            if g1 is Some {
                (g1, k1)
            } else {
                sp_for(cond, post, *body, c2, k1)
            }
        },
        Statement::While(cond, body) => sp_for(cond, Option::None, *body, cr, k),
        Statement::DoWhile(cond, body) => {
            if k == u64::MAX {
                (Option::Some(SpecGenError::LabelOverflow), k)
            } else {
                let cb = SpecCtx {
                    brk: Option::Some(LabelId { kind: LabelKind::PostLoop, serial: k as u64 }),
                    cont: Option::Some(
                        LabelId { kind: LabelKind::DoWhileContinue, serial: k as u64 },
                    ),
                    ..cr
                };
                let (g1, k1) = sp_stmt(*body, cb, k + 1);
                if g1 is Some {
                    (g1, k1)
                } else {
                    sp_expr(cond, cr.vars, k1)
                }
            }
        },
        Statement::Break => {
            if c.brk is Some {
                (Option::None, k)
            } else {
                (Option::Some(SpecGenError::BreakOutsideLoop), k)
            }
        },
        Statement::Continue => {
            if c.cont is Some {
                (Option::None, k)
            } else {
                (Option::Some(SpecGenError::ContinueOutsideLoop), k)
            }
        },
    }
}

/// What the shared loop-lowering routine does: draw the loop's serial,
/// lower the condition, the body under break and continue targets, and
/// the optional post-expression.
pub open spec fn sp_for(
    cond: Expression,
    post: Option<Expression>,
    body: Statement,
    c: SpecCtx,
    k: int,
) -> (Option<SpecGenError>, int)
    decreases body, 1int,
{
    if k == u64::MAX {
        (Option::Some(SpecGenError::LabelOverflow), k)
    } else {
        let (g1, k1) = sp_expr(cond, c.vars, k + 1);
        if g1 is Some {
            (g1, k1)
        } else {
            let cb = SpecCtx {
                brk: Option::Some(LabelId { kind: LabelKind::PostLoop, serial: k as u64 }),
                cont: Option::Some(LabelId { kind: LabelKind::LoopContinue, serial: k as u64 }),
                ..c
            };
            let (g2, k2) = sp_stmt(body, cb, k1);
            if g2 is Some {
                (g2, k2)
            } else {
                sp_opt_expr(post, c.vars, k2)
            }
        }
    }
}

/// What lowering a block's items does: the items in order under one
/// evolving context, stopping at the first error.
pub open spec fn sp_items(items: Seq<Item>, c: SpecCtx, k: int) -> (
    Option<SpecGenError>,
    SpecCtx,
    int,
)
    decreases items, 0int,
{
    if items.len() == 0 {
        (Option::None, c, k)
    } else {
        match items[0] {
            Item::Declaration(d) => {
                let (g1, c2, k1) = sp_decl(d, c, k);
                if g1 is Some {
                    (g1, c2, k1)
                } else {
                    sp_items(items.drop_first(), c2, k1)
                }
            },
            Item::Statement(st) => {
                let (g1, k1) = sp_stmt(st, c, k);
                if g1 is Some {
                    (g1, c, k1)
                } else {
                    sp_items(items.drop_first(), c, k1)
                }
            },
        }
    }
}

/// The context a function body starts from: parameters live and in scope,
/// locals to grow from the first slot, no enclosing loop.
pub open spec fn sp_fun_ctx(params: Seq<String>) -> SpecCtx {
    SpecCtx {
        vars: params_map(params),
        scope: crate::context::names_of(params),
        si: -8,
        brk: Option::None,
        cont: Option::None,
    }
}

/// What lowering one function declaration does: nothing for a prototype;
/// for a definition, a frame check on the parameter count and then the
/// body's items from the function's starting context.
pub open spec fn sp_fun_parts(params: Seq<String>, obody: Option<Vec<Item>>, k: int) -> (
    Option<SpecGenError>,
    int,
) {
    match obody {
        Option::None => (Option::None, k),
        Option::Some(items) => {
            if params.len() > (i64::MAX - 16) / 8 {
                (Option::Some(SpecGenError::FrameOverflow), k)
            } else {
                let (g1, _c2, k1) = sp_items(items@, sp_fun_ctx(params), k);
                (g1, k1)
            }
        },
    }
}

/// `sp_fun_parts` of a whole function declaration.
pub open spec fn sp_fun(f: AstNode, k: int) -> (Option<SpecGenError>, int) {
    match f {
        AstNode::AstNode(_, params, body) => sp_fun_parts(params@, body, k),
    }
}

/// What lowering a sequence of functions does, stopping at the first
/// error.
pub open spec fn sp_funs(fs: Seq<AstNode>, k: int) -> (Option<SpecGenError>, int)
    decreases fs,
{
    if fs.len() == 0 {
        (Option::None, k)
    } else {
        let (g1, k1) = sp_fun(fs[0], k);
        if g1 is Some {
            (g1, k1)
        } else {
            sp_funs(fs.drop_first(), k1)
        }
    }
}

/// What lowering a whole program does.
pub open spec fn sp_prog(p: Ast, k: int) -> (Option<SpecGenError>, int) {
    match p {
        Ast::Ast(fs) => sp_funs(fs@, k),
    }
}


/// Declaring a name the block already holds fails with exactly the
/// duplicate-declaration error; the same name declared in a freshly
/// entered block, whose scope starts empty, is accepted whenever its
/// initializer is accepted and a frame slot is left.
pub proof fn lemma_duplicate_declaration_law(d: Declaration, c: SpecCtx, k: int)
    ensures
        match d {
            Declaration::Declaration(name, init) => {
                &&& c.scope.contains(name@) ==> sp_decl(d, c, k).0 == Option::Some(
                    SpecGenError::DuplicateDeclaration(name@),
                )
                &&& ({
                    let cr = SpecCtx { scope: Set::empty(), ..c };
                    sp_decl(d, cr, k).0 is None <==> (sp_opt_expr(init, c.vars, k).0 is None
                        && c.si >= i64::MIN + 8)
                })
            },
        },
{
    match d {
        Declaration::Declaration(name, _) => {
            assert(!Set::<Seq<char>>::empty().contains(name@));
        },
    }
}

/// `break` and `continue` lower successfully exactly when the context
/// carries the corresponding loop target, and fail with exactly the
/// out-of-loop error otherwise; neither moves the label counter.
pub proof fn lemma_break_continue_law(c: SpecCtx, k: int)
    ensures
        sp_stmt(Statement::Break, c, k) == if c.brk is Some {
            (Option::<SpecGenError>::None, k)
        } else {
            (Option::Some(SpecGenError::BreakOutsideLoop), k)
        },
        sp_stmt(Statement::Continue, c, k) == if c.cont is Some {
            (Option::<SpecGenError>::None, k)
        } else {
            (Option::Some(SpecGenError::ContinueOutsideLoop), k)
        },
{
}


/// The instruction lines a unary operator contributes after its operand.
/// Arithmetic negation negates the accumulator in place. Logical negation
/// is a test for zero: the operand is compared with zero, `sete` writes 1
/// exactly when it was zero, and the byte is widened back into the
/// accumulator — so `!e` yields 1 when `e` is 0 and 0 otherwise.
pub open spec fn sp_unop_lines(op: Operator) -> Seq<AsmLine>
    recommends
        sp_unop_ok(op),
{
    if op is Minus {
        seq![AsmLine::NegRax]
    } else {
        seq![AsmLine::CmpRaxZero, AsmLine::SetE, AsmLine::MovzbRaxAl]
    }
}

/// The instruction lines an assignment operator contributes after its
/// right-hand side, for a target at this frame offset.
pub open spec fn sp_assign_lines(op: Operator, off: i64) -> Seq<AsmLine>
    recommends
        sp_assign_ok(op),
{
    match op {
        Operator::Assignment => seq![AsmLine::StoreVar(off)],
        Operator::AssignPlus => seq![AsmLine::AddVar(off), AsmLine::LoadVar(off)],
        Operator::AssignMinus => seq![AsmLine::SubVar(off), AsmLine::LoadVar(off)],
        Operator::AssignMult => seq![
            AsmLine::MovRdiRax,
            AsmLine::LoadVar(off),
            AsmLine::MulRdi,
            AsmLine::StoreVar(off),
        ],
        Operator::AssignDiv => seq![
            AsmLine::MovRdiRax,
            AsmLine::LoadVar(off),
            AsmLine::ClearRdx,
            AsmLine::DivRdi,
            AsmLine::StoreVar(off),
        ],
        _ => seq![
            AsmLine::MovRdiRax,
            AsmLine::LoadVar(off),
            AsmLine::ClearRdx,
            AsmLine::DivRdi,
            AsmLine::MovRaxRdx,
            AsmLine::StoreVar(off),
        ],
    }
}

/// The instruction lines a binary operator contributes once its operands
/// stand in the secondary register and the accumulator.
pub open spec fn sp_binop_lines(op: Operator) -> Seq<AsmLine>
    recommends
        sp_bin_ok(op),
{
    match op {
        Operator::Plus => seq![AsmLine::AddRaxRdi],
        Operator::Minus => seq![AsmLine::SubRaxRdi],
        Operator::Multiplication => seq![AsmLine::MulRdi],
        Operator::Division => seq![AsmLine::ClearRdx, AsmLine::DivRdi],
        Operator::Modulo => seq![AsmLine::ClearRdx, AsmLine::DivRdi, AsmLine::MovRaxRdx],
        Operator::Equal => seq![AsmLine::CmpRaxRdi, AsmLine::SetE, AsmLine::MovzbRaxAl],
        Operator::NotEqual => seq![AsmLine::CmpRaxRdi, AsmLine::SetNe, AsmLine::MovzbRaxAl],
        Operator::LessThan => seq![AsmLine::CmpRaxRdi, AsmLine::SetL, AsmLine::MovzbRaxAl],
        Operator::LessThanOrEqual => seq![AsmLine::CmpRaxRdi, AsmLine::SetLe, AsmLine::MovzbRaxAl],
        Operator::GreaterThan => seq![AsmLine::CmpRaxRdi, AsmLine::SetG, AsmLine::MovzbRaxAl],
        Operator::GreaterThanOrEqual => seq![
            AsmLine::CmpRaxRdi,
            AsmLine::SetGe,
            AsmLine::MovzbRaxAl,
        ],
        Operator::LogicalOr => seq![AsmLine::OrRdiRax, AsmLine::SetNe, AsmLine::MovzbRaxAl],
        Operator::LogicalAnd => seq![
            AsmLine::CmpRdiZero,
            AsmLine::SetNeDil,
            AsmLine::CmpRaxZero,
            AsmLine::SetNe,
            AsmLine::MovzbRaxAl,
            AsmLine::AndAlDil,
        ],
        Operator::BitwiseAnd => seq![AsmLine::AndRaxRdi],
        Operator::BitwiseOr => seq![AsmLine::OrRaxRdi],
        Operator::BitwiseXor => seq![AsmLine::XorRaxRdi],
        Operator::BitwiseShiftLeft => seq![AsmLine::MovRcxRdi, AsmLine::ShlRaxCl],
        _ => seq![AsmLine::MovRcxRdi, AsmLine::ShrRaxCl],
    }
}

/// The exact lines lowering an expression emits, entered with the label
/// counter at `k`. Meaningful wherever `sp_expr` reports no error.
pub open spec fn sp_expr_lines(e: Expression, vars: Map<Seq<char>, int>, k: int) -> Seq<AsmLine>
    decreases e,
{
    match e {
        Expression::Constant(v) => seq![AsmLine::MovImm(v)],
        Expression::Variable(name) => seq![AsmLine::LoadVar(vars[name@] as i64)],
        Expression::UnaryOperators(op, inner) => sp_expr_lines(*inner, vars, k) + sp_unop_lines(
            op,
        ),
        Expression::AssignmentOperators(op, name, rhs) => sp_expr_lines(*rhs, vars, k)
            + sp_assign_lines(op, vars[name@] as i64),
        Expression::BinaryOperators(op, lhs, rhs) => {
            let k1 = sp_expr(*rhs, vars, k).1;
            sp_expr_lines(*rhs, vars, k) + seq![AsmLine::PushRax] + sp_expr_lines(*lhs, vars, k1)
                + seq![AsmLine::PopRdi] + sp_binop_lines(op)
        },
        Expression::TernaryOperators(cond, te, fe) => {
            let k1 = sp_expr(*cond, vars, k).1;
            let el = LabelId { kind: LabelKind::TernaryElse, serial: k1 as u64 };
            let en = LabelId { kind: LabelKind::TernaryEnd, serial: k1 as u64 };
            let k2 = sp_expr(*te, vars, k1 + 1).1;
            sp_expr_lines(*cond, vars, k) + seq![AsmLine::CmpRaxZero] + seq![AsmLine::Je(el)]
                + sp_expr_lines(*te, vars, k1 + 1) + seq![AsmLine::Jmp(en)] + seq![
                AsmLine::Label(el),
            ] + sp_expr_lines(*fe, vars, k2) + seq![AsmLine::Label(en)]
        },
        Expression::FunctionCalls(id, args) => sp_exprs_rev_lines(args@, vars, k) + seq![
            AsmLine::CallFn(id),
        ] + seq![AsmLine::AddRsp((args@.len() * 8) as u64)],
    }
}

/// The exact lines lowering a call's arguments emits: each argument from
/// the last to the first, each followed by a push.
pub open spec fn sp_exprs_rev_lines(es: Seq<Expression>, vars: Map<Seq<char>, int>, k: int) -> Seq<
    AsmLine,
>
    decreases es,
{
    if es.len() == 0 {
        Seq::empty()
    } else {
        sp_expr_lines(es.last(), vars, k) + seq![AsmLine::PushRax] + sp_exprs_rev_lines(
            es.drop_last(),
            vars,
            sp_expr(es.last(), vars, k).1,
        )
    }
}

/// The exact lines lowering a declaration emits: the initializer (or a
/// zero push) and the push of the variable's storage.
pub open spec fn sp_decl_lines(d: Declaration, vars: Map<Seq<char>, int>, k: int) -> Seq<AsmLine> {
    match d {
        Declaration::Declaration(_, init) => match init {
            Option::Some(e) => sp_expr_lines(e, vars, k) + seq![AsmLine::PushRax],
            Option::None => seq![AsmLine::PushZero],
        },
    }
}

/// The exact lines lowering a statement emits, entered with the label
/// counter at `k`. Meaningful wherever `sp_stmt` reports no error.
///
/// A `for` whose initializer is a declaration ends with a `pop`: the loop
/// variable's stack slot is released, so the stack pointer returns to the
/// enclosing block's level and a later declaration there gets a slot of
/// its own. A `for` with an expression initializer allocates nothing and
/// pops nothing.
pub open spec fn sp_stmt_lines(s: Statement, c: SpecCtx, k: int) -> Seq<AsmLine>
    decreases s, 0int,
{
    let cr = SpecCtx { scope: Set::empty(), ..c };
    match s {
        Statement::Expression(oe) => match oe {
            Option::Some(e) => sp_expr_lines(e, cr.vars, k),
            Option::None => Seq::empty(),
        },
        Statement::Return(e) => sp_expr_lines(e, cr.vars, k) + seq![
            AsmLine::MovRspRbp,
            AsmLine::PopRbp,
            AsmLine::Ret,
        ],
        Statement::If(cond, tb, eb) => {
            let k1 = sp_expr(cond, cr.vars, k).1;
            let pi = LabelId { kind: LabelKind::PostIf, serial: k1 as u64 };
            let pe = LabelId { kind: LabelKind::PostElse, serial: k1 as u64 };
            let k2 = sp_stmt(*tb, cr, k1 + 1).1;
            let head = sp_expr_lines(cond, cr.vars, k) + seq![AsmLine::CmpRaxZero] + seq![
                AsmLine::Je(pi),
            ] + sp_stmt_lines(*tb, cr, k1 + 1);
            match eb {
                Option::None => head + seq![AsmLine::Label(pi)],
                Option::Some(es) => head + seq![AsmLine::Jmp(pe)] + seq![AsmLine::Label(pi)]
                    + sp_stmt_lines(*es, cr, k2) + seq![AsmLine::Label(pe)],
            }
        },
        Statement::Compound(items) => sp_items_lines(items@, cr, k),
        Statement::For(init, cond, post, body) => {
            let k1 = sp_opt_expr(init, cr.vars, k).1;
            let head = match init {
                Option::Some(e) => sp_expr_lines(e, cr.vars, k),
                Option::None => Seq::<AsmLine>::empty(),
            };
            head + sp_for_lines(cond, post, *body, cr, k1)
        },
        Statement::ForDeclaration(decl, cond, post, body) => {
            let k1 = sp_decl(decl, cr, k).2;
            let c2 = sp_decl(decl, cr, k).1;
            sp_decl_lines(decl, cr.vars, k) + sp_for_lines(cond, post, *body, c2, k1) + seq![
                AsmLine::PopRax,
            ]
        },
        Statement::While(cond, body) => sp_for_lines(cond, Option::None, *body, cr, k),
        Statement::DoWhile(cond, body) => {
            let lt = LabelId { kind: LabelKind::LoopTop, serial: k as u64 };
            let bl = LabelId { kind: LabelKind::PostLoop, serial: k as u64 };
            let cl = LabelId { kind: LabelKind::DoWhileContinue, serial: k as u64 };
            let cb = SpecCtx { brk: Option::Some(bl), cont: Option::Some(cl), ..cr };
            let k1 = sp_stmt(*body, cb, k + 1).1;
            seq![AsmLine::Label(lt)] + sp_stmt_lines(*body, cb, k + 1) + seq![
                AsmLine::Label(cl),
            ] + sp_expr_lines(cond, cr.vars, k1) + seq![AsmLine::CmpRaxZero] + seq![
                AsmLine::Jne(lt),
            ] + seq![AsmLine::Label(bl)]
        },
        Statement::Break => match c.brk {
            Option::Some(l) => seq![AsmLine::Jmp(l)],
            Option::None => Seq::empty(),
        },
        Statement::Continue => match c.cont {
            Option::Some(l) => seq![AsmLine::Jmp(l)],
            Option::None => Seq::empty(),
        },
    }
}

/// The exact lines the shared loop-lowering routine emits.
pub open spec fn sp_for_lines(
    cond: Expression,
    post: Option<Expression>,
    body: Statement,
    c: SpecCtx,
    k: int,
) -> Seq<AsmLine>
    decreases body, 1int,
{
    let lt = LabelId { kind: LabelKind::LoopTop, serial: k as u64 };
    let pl = LabelId { kind: LabelKind::PostLoop, serial: k as u64 };
    let cl = LabelId { kind: LabelKind::LoopContinue, serial: k as u64 };
    let k1 = sp_expr(cond, c.vars, k + 1).1;
    let cb = SpecCtx { brk: Option::Some(pl), cont: Option::Some(cl), ..c };
    let k2 = sp_stmt(body, cb, k1).1;
    seq![AsmLine::Label(lt)] + sp_expr_lines(cond, c.vars, k + 1) + seq![AsmLine::CmpRaxZero]
        + seq![AsmLine::Je(pl)] + sp_stmt_lines(body, cb, k1) + seq![AsmLine::Label(cl)] + (
    match post {
        Option::Some(e) => sp_expr_lines(e, c.vars, k2),
        Option::None => Seq::<AsmLine>::empty(),
    }) + seq![AsmLine::Jmp(lt)] + seq![AsmLine::Label(pl)]
}

/// The exact lines lowering a block's items emits, under the evolving
/// context.
pub open spec fn sp_items_lines(items: Seq<Item>, c: SpecCtx, k: int) -> Seq<AsmLine>
    decreases items, 0int,
{
    if items.len() == 0 {
        Seq::empty()
    } else {
        match items[0] {
            Item::Declaration(d) => sp_decl_lines(d, c.vars, k) + sp_items_lines(
                items.drop_first(),
                sp_decl(d, c, k).1,
                sp_decl(d, c, k).2,
            ),
            Item::Statement(st) => sp_stmt_lines(st, c, k) + sp_items_lines(
                items.drop_first(),
                c,
                sp_stmt(st, c, k).1,
            ),
        }
    }
}

/// The exact lines lowering one function emits: nothing for a prototype;
/// otherwise the global line, the entry label, the prologue, the body's
/// items, and the default return of zero with the epilogue.
pub open spec fn sp_fun_lines(
    name: String,
    params: Seq<String>,
    obody: Option<Vec<Item>>,
    k: int,
) -> Seq<AsmLine> {
    match obody {
        Option::None => Seq::empty(),
        Option::Some(items) => seq![AsmLine::Global(name)] + seq![AsmLine::FunLabel(name)] + seq![
            AsmLine::PushRbp,
        ] + seq![AsmLine::MovRbpRsp] + sp_items_lines(items@, sp_fun_ctx(params), k) + seq![
            AsmLine::MovImm(0),
        ] + seq![AsmLine::MovRspRbp, AsmLine::PopRbp, AsmLine::Ret],
    }
}

/// The exact lines lowering a sequence of functions emits.
pub open spec fn sp_funs_lines(fs: Seq<AstNode>, k: int) -> Seq<AsmLine>
    decreases fs,
{
    if fs.len() == 0 {
        Seq::empty()
    } else {
        match fs[0] {
            AstNode::AstNode(name, params, body) => sp_fun_lines(name, params@, body, k)
                + sp_funs_lines(fs.drop_first(), sp_fun(fs[0], k).1),
        }
    }
}

/// The exact listing lowering a whole program emits: the syntax directive
/// and then every function in order.
pub open spec fn sp_prog_lines(p: Ast, k: int) -> Seq<AsmLine> {
    match p {
        Ast::Ast(fs) => seq![AsmLine::SyntaxDirective] + sp_funs_lines(fs@, k),
    }
}

} // verus!
