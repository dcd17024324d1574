//! The assembly output, one line per value, and the label bookkeeping that
//! the generator's contracts are stated over.
//!
//! Every control-flow label is a [`LabelId`]: a descriptive kind and the
//! serial number drawn from the generator's counter when the label was
//! made. A chunk of emitted lines is *closed* over a set of labels it may
//! define and a set of allowed outside targets (`chunk_ok`): it defines
//! only labels from the first set, each at most once, and every jump in it
//! goes to a label the chunk itself defines or to an allowed target (an
//! enclosing loop's break or continue label). Composing chunks whose
//! definable sets are disjoint keeps all of this — which is how the
//! generator proves that a finished program has no unresolved and no
//! doubly defined labels. The module also renders lines and listings to
//! text, with the exact character sequence stated in spec functions.
//!
//! The model tracks the numbered labels the generator draws ([`LabelId`]
//! lines) and nothing else. A function's entry label (`FunLabel`) renders
//! as the source function's own name; a source program whose function is
//! named exactly like a numbered label's text — a kind prefix, an
//! underscore and a decimal serial, such as `loop_0` — would repeat that
//! text in the rendered listing, and the model does not rule that out.
//! Label resolution is stated at the line level, before rendering.

use vstd::prelude::*;

verus! {

/// What a control-flow label is for; its text prefix in the output.
#[derive(Debug, Clone, Copy, PartialEq, Eq, Structural)]
pub enum LabelKind {
    /// `post_if`: past the then-branch.
    PostIf,
    /// `post_else`: past the else-branch.
    PostElse,
    /// `loop`: a loop's top.
    LoopTop,
    /// `post_loop`: past the loop; the break target.
    PostLoop,
    /// `loop_continue`: just before a loop's post-expression.
    LoopContinue,
    /// `continue_do_while`: a do-while's continue target.
    DoWhileContinue,
    /// `e`: a ternary's false branch.
    TernaryElse,
    /// `e_conditional`: past a ternary.
    TernaryEnd,
}

/// A unique control-flow label: its kind and the counter serial it was
/// drawn with. Two labels are the same exactly when both parts agree.
#[derive(Debug, Clone, Copy, PartialEq, Eq, Structural)]
pub struct LabelId {
    pub kind: LabelKind,
    pub serial: u64,
}

/// One line of the assembly listing.
#[derive(Debug, Clone, PartialEq)]
pub enum AsmLine {
    /// The syntax-mode directive that opens the listing.
    SyntaxDirective,
    /// `.global name`.
    Global(String),
    /// `name:` — a function's entry label.
    FunLabel(String),
    /// A local label definition.
    Label(LabelId),
    /// `jmp label`.
    Jmp(LabelId),
    /// `je label`.
    Je(LabelId),
    /// `jne label`.
    Jne(LabelId),
    /// `call name`.
    CallFn(String),
    /// `mov rax, imm`.
    MovImm(i32),
    /// `mov rax, [rbp+off]`.
    LoadVar(i64),
    /// `mov [rbp+off], rax`.
    StoreVar(i64),
    /// `add [rbp+off], rax`.
    AddVar(i64),
    /// `sub [rbp+off], rax`.
    SubVar(i64),
    /// `add rsp, n` — the caller reclaims pushed argument space.
    AddRsp(u64),
    /// `push rbp`.
    PushRbp,
    /// `mov rbp, rsp`.
    MovRbpRsp,
    /// `mov rsp, rbp`.
    MovRspRbp,
    /// `pop rbp`.
    PopRbp,
    /// `ret`.
    Ret,
    /// `push rax`.
    PushRax,
    /// `push 0`.
    PushZero,
    /// `pop rdi`.
    PopRdi,
    /// `pop rax`.
    PopRax,
    /// `mov rdi, rax`.
    MovRdiRax,
    /// `cmp rax, 0`.
    CmpRaxZero,
    /// `cmp rdi, 0`.
    CmpRdiZero,
    /// `cmp rax, rdi`.
    CmpRaxRdi,
    /// `neg rax`.
    NegRax,
    /// `add rax, rdi`.
    AddRaxRdi,
    /// `sub rax, rdi`.
    SubRaxRdi,
    /// `mul rdi`.
    MulRdi,
    /// `mov rdx, 0`.
    ClearRdx,
    /// `div rdi`.
    DivRdi,
    /// `mov rax, rdx`.
    MovRaxRdx,
    /// `sete al`.
    SetE,
    /// `setne al`.
    SetNe,
    /// `setl al`.
    SetL,
    /// `setle al`.
    SetLe,
    /// `setg al`.
    SetG,
    /// `setge al`.
    SetGe,
    /// `setne dil`.
    SetNeDil,
    /// `movzb rax, al`.
    MovzbRaxAl,
    /// `and al, dil`.
    AndAlDil,
    /// `or rdi, rax`.
    OrRdiRax,
    /// `and rax, rdi`.
    AndRaxRdi,
    /// `or rax, rdi`.
    OrRaxRdi,
    /// `xor rax, rdi`.
    XorRaxRdi,
    /// `mov rcx, rdi`.
    MovRcxRdi,
    /// `shl rax, cl`.
    ShlRaxCl,
    /// `shr rax, cl`.
    ShrRaxCl,
}

/// The label this line defines, if it is a label line.
pub open spec fn def_label(line: AsmLine) -> Option<LabelId> {
    match line {
        AsmLine::Label(id) => Option::Some(id),
        _ => Option::None,
    }
}

/// The label this line jumps to, if it is a jump.
pub open spec fn jump_target(line: AsmLine) -> Option<LabelId> {
    match line {
        AsmLine::Jmp(id) => Option::Some(id),
        AsmLine::Je(id) => Option::Some(id),
        AsmLine::Jne(id) => Option::Some(id),
        _ => Option::None,
    }
}

/// How many lines of the chunk define this label.
pub open spec fn def_count(lines: Seq<AsmLine>, id: LabelId) -> nat
    decreases lines,
{
    if lines.len() == 0 {
        0
    } else {
        def_count(lines.drop_last(), id) + if def_label(lines.last()) == Option::Some(id) {
            1nat
        } else {
            0nat
        }
    }
}

/// The chunk defines this label somewhere.
pub open spec fn defines(lines: Seq<AsmLine>, id: LabelId) -> bool {
    def_count(lines, id) > 0
}

/// The labels with serials in `[lo, hi)`.
pub open spec fn label_range(lo: int, hi: int) -> Set<LabelId> {
    Set::new(|id: LabelId| lo <= id.serial < hi)
}

/// The chunk is closed up to the allowed outside targets: it defines only
/// labels from `may_def`, each at most once, and every jump goes to a label
/// defined here or to an allowed target.
pub open spec fn chunk_ok(lines: Seq<AsmLine>, may_def: Set<LabelId>, allowed: Set<LabelId>) -> bool {
    &&& forall|i: int|
        0 <= i < lines.len() && def_label(#[trigger] lines[i]) is Some ==> may_def.contains(
            def_label(lines[i])->Some_0,
        )
    &&& forall|id: LabelId| #[trigger] def_count(lines, id) <= 1
    &&& forall|i: int|
        0 <= i < lines.len() && jump_target(#[trigger] lines[i]) is Some ==> defines(
            lines,
            jump_target(lines[i])->Some_0,
        ) || allowed.contains(jump_target(lines[i])->Some_0)
}

/// Counting label definitions distributes over concatenation.
pub proof fn lemma_def_count_concat(a: Seq<AsmLine>, b: Seq<AsmLine>, id: LabelId)
    ensures
        def_count(a + b, id) == def_count(a, id) + def_count(b, id),
    decreases b,
{
    if b.len() == 0 {
        assert(a + b =~= a);
    } else {
        assert((a + b).drop_last() =~= a + b.drop_last());
        assert((a + b).last() == b.last());
        lemma_def_count_concat(a, b.drop_last(), id);
    }
}

/// A defined label is defined at some position.
pub proof fn lemma_def_pos(lines: Seq<AsmLine>, id: LabelId)
    requires
        def_count(lines, id) > 0,
    ensures
        exists|i: int| 0 <= i < lines.len() && def_label(#[trigger] lines[i]) == Option::Some(id),
    decreases lines,
{
    if lines.len() > 0 {
        if def_label(lines.last()) == Option::Some(id) {
            assert(def_label(lines[lines.len() - 1]) == Option::Some(id));
        } else {
            lemma_def_pos(lines.drop_last(), id);
            let i = choose|i: int|
                0 <= i < lines.drop_last().len() && def_label(
                    #[trigger] lines.drop_last()[i],
                ) == Option::Some(id);
            assert(def_label(lines[i]) == Option::Some(id));
        }
    }
}

/// A label defined nowhere in the chunk has definition count zero.
pub proof fn lemma_def_count_none(lines: Seq<AsmLine>, id: LabelId)
    requires
        forall|i: int|
            0 <= i < lines.len() ==> def_label(#[trigger] lines[i]) != Option::Some(id),
    ensures
        def_count(lines, id) == 0,
    decreases lines,
{
    if lines.len() > 0 {
        lemma_def_count_none(lines.drop_last(), id);
    }
}

/// The empty chunk is closed.
pub proof fn lemma_chunk_empty(may_def: Set<LabelId>, allowed: Set<LabelId>)
    ensures
        chunk_ok(Seq::empty(), may_def, allowed),
{
    assert forall|id: LabelId| #[trigger] def_count(Seq::<AsmLine>::empty(), id) <= 1 by {
        lemma_def_count_none(Seq::empty(), id);
    }
}

/// A one-line chunk from a line that neither defines a label nor jumps.
pub proof fn lemma_chunk_plain(line: AsmLine, may_def: Set<LabelId>, allowed: Set<LabelId>)
    requires
        def_label(line) is None,
        jump_target(line) is None,
    ensures
        chunk_ok(seq![line], may_def, allowed),
{
    assert forall|id: LabelId| #[trigger] def_count(seq![line], id) <= 1 by {
        lemma_def_count_none(seq![line], id);
    }
}

/// A one-line chunk from a jump whose target is allowed.
pub proof fn lemma_chunk_jump(line: AsmLine, may_def: Set<LabelId>, allowed: Set<LabelId>)
    requires
        def_label(line) is None,
        jump_target(line) matches Some(t) && allowed.contains(t),
    ensures
        chunk_ok(seq![line], may_def, allowed),
{
    assert forall|id: LabelId| #[trigger] def_count(seq![line], id) <= 1 by {
        lemma_def_count_none(seq![line], id);
    }
}

/// A one-line chunk from a label definition the chunk may make.
pub proof fn lemma_chunk_def(line: AsmLine, may_def: Set<LabelId>, allowed: Set<LabelId>)
    requires
        def_label(line) matches Some(id) && may_def.contains(id),
    ensures
        chunk_ok(seq![line], may_def, allowed),
{
    let the_id = def_label(line)->Some_0;
    assert forall|id: LabelId| #[trigger] def_count(seq![line], id) <= 1 by {
        if id == the_id {
            assert(def_count(seq![line].drop_last(), id) == 0) by {
                lemma_def_count_none(seq![line].drop_last(), id);
            }
        } else {
            lemma_def_count_none(seq![line], id);
        }
    }
}

/// Concatenating two closed chunks whose definable label sets are disjoint
/// gives a closed chunk over the union.
pub proof fn lemma_chunk_join(
    a: Seq<AsmLine>,
    b: Seq<AsmLine>,
    da: Set<LabelId>,
    db: Set<LabelId>,
    allowed: Set<LabelId>,
)
    requires
        chunk_ok(a, da, allowed),
        chunk_ok(b, db, allowed),
        da.disjoint(db),
    ensures
        chunk_ok(a + b, da.union(db), allowed),
{
    let c = a + b;
    assert forall|i: int|
        0 <= i < c.len() && def_label(#[trigger] c[i]) is Some implies da.union(db).contains(
        def_label(c[i])->Some_0,
    ) by {
        if i < a.len() {
            assert(c[i] == a[i]);
        } else {
            assert(c[i] == b[i - a.len()]);
        }
    }
    assert forall|id: LabelId| #[trigger] def_count(c, id) <= 1 by {
        lemma_def_count_concat(a, b, id);
        if def_count(a, id) > 0 && def_count(b, id) > 0 {
            lemma_def_pos(a, id);
            lemma_def_pos(b, id);
            assert(da.contains(id));
            assert(db.contains(id));
            assert(false);
        }
    }
    assert forall|i: int|
        0 <= i < c.len() && jump_target(#[trigger] c[i]) is Some implies defines(
        c,
        jump_target(c[i])->Some_0,
    ) || allowed.contains(jump_target(c[i])->Some_0) by {
        let t = jump_target(c[i])->Some_0;
        lemma_def_count_concat(a, b, t);
        if i < a.len() {
            assert(c[i] == a[i]);
            assert(jump_target(a[i]) is Some);
        } else {
            assert(c[i] == b[i - a.len()]);
            assert(jump_target(b[i - a.len()]) is Some);
        }
    }
}

/// Closedness survives widening the definable and the allowed sets.
pub proof fn lemma_chunk_widen(
    lines: Seq<AsmLine>,
    d1: Set<LabelId>,
    d2: Set<LabelId>,
    allowed: Set<LabelId>,
    allowed2: Set<LabelId>,
)
    requires
        chunk_ok(lines, d1, allowed),
        d1.subset_of(d2),
        allowed.subset_of(allowed2),
    ensures
        chunk_ok(lines, d2, allowed2),
{
}

/// An allowed target that the chunk itself defines can leave the allowed
/// set.
pub proof fn lemma_chunk_resolve(
    lines: Seq<AsmLine>,
    may_def: Set<LabelId>,
    allowed: Set<LabelId>,
    id: LabelId,
)
    requires
        chunk_ok(lines, may_def, allowed.insert(id)),
        defines(lines, id),
    ensures
        chunk_ok(lines, may_def, allowed),
{
    assert forall|i: int|
        0 <= i < lines.len() && jump_target(#[trigger] lines[i]) is Some implies defines(
        lines,
        jump_target(lines[i])->Some_0,
    ) || allowed.contains(jump_target(lines[i])->Some_0) by {
        let t = jump_target(lines[i])->Some_0;
        if t != id && allowed.insert(id).contains(t) {
            assert(allowed.contains(t));
        }
    }
}


/// The character for one decimal digit.
pub open spec fn digit_char(d: int) -> char {
    if d == 0 {
        '0'
    } else if d == 1 {
        '1'
    } else if d == 2 {
        '2'
    } else if d == 3 {
        '3'
    } else if d == 4 {
        '4'
    } else if d == 5 {
        '5'
    } else if d == 6 {
        '6'
    } else if d == 7 {
        '7'
    } else if d == 8 {
        '8'
    } else {
        '9'
    }
}

/// The decimal digits of a non-negative number, most significant first.
pub open spec fn spec_digits(n: int) -> Seq<char>
    recommends
        n >= 0,
    decreases n,
    when n >= 0
{
    if n < 10 {
        seq![digit_char(n)]
    } else {
        spec_digits(n / 10).push(digit_char(n % 10))
    }
}

/// A signed number as text: a minus sign before the digits where negative.
pub open spec fn spec_int_text(v: int) -> Seq<char> {
    if v >= 0 {
        spec_digits(v)
    } else {
        seq!['-'] + spec_digits(-v)
    }
}

/// A frame offset as text, always carrying its sign.
pub open spec fn spec_offset_text(off: int) -> Seq<char> {
    if off >= 0 {
        seq!['+'] + spec_digits(off)
    } else {
        seq!['-'] + spec_digits(-off)
    }
}

/// One decimal digit as a string.
fn digit_text(d: u64) -> (r: String)
    requires
        d < 10,
    ensures
        r@ =~= seq![digit_char(d as int)],
{
    proof {
        reveal_strlit("0");
        reveal_strlit("1");
        reveal_strlit("2");
        reveal_strlit("3");
        reveal_strlit("4");
        reveal_strlit("5");
        reveal_strlit("6");
        reveal_strlit("7");
        reveal_strlit("8");
        reveal_strlit("9");
    }
    if d == 0 {
        String::from_str("0")
    } else if d == 1 {
        String::from_str("1")
    } else if d == 2 {
        String::from_str("2")
    } else if d == 3 {
        String::from_str("3")
    } else if d == 4 {
        String::from_str("4")
    } else if d == 5 {
        String::from_str("5")
    } else if d == 6 {
        String::from_str("6")
    } else if d == 7 {
        String::from_str("7")
    } else if d == 8 {
        String::from_str("8")
    } else {
        String::from_str("9")
    }
}

/// A number as decimal text.
pub fn u64_text(n: u64) -> (r: String)
    ensures
        r@ == spec_digits(n as int),
    decreases n,
{
    if n < 10 {
        let r = digit_text(n);
        proof {
            assert(r@ == spec_digits(n as int));
        }
        r
    } else {
        let mut s = u64_text(n / 10);
        let d = digit_text(n % 10);
        s.append(d.as_str());
        proof {
            assert(s@ =~= spec_digits(n as int / 10).push(digit_char(n as int % 10)));
        }
        s
    }
}

/// A signed number as decimal text.
pub fn i64_text(v: i64) -> (r: String)
    ensures
        r@ == spec_int_text(v as int),
{
    if v >= 0 {
        u64_text(v as u64)
    } else {
        let m: u64 = ((-(v + 1)) as u64) + 1;
        proof {
            assert(m as int == -(v as int));
        }
        let mut s = String::from_str("-");
        let d = u64_text(m);
        s.append(d.as_str());
        proof {
            reveal_strlit("-");
            assert(s@ =~= seq!['-'] + spec_digits(-(v as int)));
        }
        s
    }
}

/// A frame offset as text with its sign.
pub fn offset_text(v: i64) -> (r: String)
    ensures
        r@ == spec_offset_text(v as int),
{
    if v >= 0 {
        let mut s = String::from_str("+");
        let d = u64_text(v as u64);
        s.append(d.as_str());
        proof {
            reveal_strlit("+");
            assert(s@ =~= seq!['+'] + spec_digits(v as int));
        }
        s
    } else {
        let m: u64 = ((-(v + 1)) as u64) + 1;
        proof {
            assert(m as int == -(v as int));
        }
        let mut s = String::from_str("-");
        let d = u64_text(m);
        s.append(d.as_str());
        proof {
            reveal_strlit("-");
            assert(s@ =~= seq!['-'] + spec_digits(-(v as int)));
        }
        s
    }
}

/// The text prefix of a label kind.
pub open spec fn spec_label_prefix(kind: LabelKind) -> Seq<char> {
    match kind {
        LabelKind::PostIf => "post_if"@,
        LabelKind::PostElse => "post_else"@,
        LabelKind::LoopTop => "loop"@,
        LabelKind::PostLoop => "post_loop"@,
        LabelKind::LoopContinue => "loop_continue"@,
        LabelKind::DoWhileContinue => "continue_do_while"@,
        LabelKind::TernaryElse => "e"@,
        LabelKind::TernaryEnd => "e_conditional"@,
    }
}

/// A label's full text: its prefix, an underscore, and its serial.
pub open spec fn spec_label_text(id: LabelId) -> Seq<char> {
    spec_label_prefix(id.kind) + seq!['_'] + spec_digits(id.serial as int)
}

/// The text prefix of a label kind.
pub fn label_prefix_text(kind: LabelKind) -> (r: String)
    ensures
        r@ == spec_label_prefix(kind),
{
    match kind {
        LabelKind::PostIf => String::from_str("post_if"),
        LabelKind::PostElse => String::from_str("post_else"),
        LabelKind::LoopTop => String::from_str("loop"),
        LabelKind::PostLoop => String::from_str("post_loop"),
        LabelKind::LoopContinue => String::from_str("loop_continue"),
        LabelKind::DoWhileContinue => String::from_str("continue_do_while"),
        LabelKind::TernaryElse => String::from_str("e"),
        LabelKind::TernaryEnd => String::from_str("e_conditional"),
    }
}

/// A label's full text.
pub fn label_text(id: LabelId) -> (r: String)
    ensures
        r@ == spec_label_text(id),
{
    let mut s = label_prefix_text(id.kind);
    let d = u64_text(id.serial);
    s.append("_");
    s.append(d.as_str());
    proof {
        reveal_strlit("_");
        assert(s@ =~= spec_label_text(id));
    }
    s
}


/// The text of one assembly line, without its line break.
pub open spec fn spec_line_text(line: AsmLine) -> Seq<char> {
    match line {
        AsmLine::SyntaxDirective => ".intel_syntax noprefix"@,
        AsmLine::Global(s) => ".global "@ + s@,
        AsmLine::FunLabel(s) => s@ + ":"@,
        AsmLine::Label(id) => spec_label_text(id) + ":"@,
        AsmLine::Jmp(id) => "  jmp "@ + spec_label_text(id),
        AsmLine::Je(id) => "  je "@ + spec_label_text(id),
        AsmLine::Jne(id) => "  jne "@ + spec_label_text(id),
        AsmLine::CallFn(s) => "  call "@ + s@,
        AsmLine::MovImm(v) => "  mov rax,"@ + spec_int_text(v as int),
        AsmLine::LoadVar(off) => "  mov rax, [rbp"@ + spec_offset_text(off as int) + "]"@,
        AsmLine::StoreVar(off) => "  mov [rbp"@ + spec_offset_text(off as int) + "], rax"@,
        AsmLine::AddVar(off) => "  add [rbp"@ + spec_offset_text(off as int) + "], rax"@,
        AsmLine::SubVar(off) => "  sub [rbp"@ + spec_offset_text(off as int) + "], rax"@,
        AsmLine::AddRsp(n) => "  add rsp, "@ + spec_digits(n as int),
        AsmLine::PushRbp => "  push rbp"@,
        AsmLine::MovRbpRsp => "  mov rbp,rsp"@,
        AsmLine::MovRspRbp => "  mov rsp, rbp"@,
        AsmLine::PopRbp => "  pop rbp"@,
        AsmLine::Ret => "  ret"@,
        AsmLine::PushRax => "  push rax"@,
        AsmLine::PushZero => "  push 0"@,
        AsmLine::PopRdi => "  pop rdi"@,
        AsmLine::PopRax => "  pop rax"@,
        AsmLine::MovRdiRax => "  mov rdi, rax"@,
        AsmLine::CmpRaxZero => "  cmp rax,0"@,
        AsmLine::CmpRdiZero => "  cmp rdi,0"@,
        AsmLine::CmpRaxRdi => "  cmp rax,rdi"@,
        AsmLine::NegRax => "  neg rax"@,
        AsmLine::AddRaxRdi => "  add rax,rdi"@,
        AsmLine::SubRaxRdi => "  sub rax,rdi"@,
        AsmLine::MulRdi => "  mul rdi"@,
        AsmLine::ClearRdx => "  mov rdx,0"@,
        AsmLine::DivRdi => "  div rdi"@,
        AsmLine::MovRaxRdx => "  mov rax,rdx"@,
        AsmLine::SetE => "  sete al"@,
        AsmLine::SetNe => "  setne al"@,
        AsmLine::SetL => "  setl al"@,
        AsmLine::SetLe => "  setle al"@,
        AsmLine::SetG => "  setg al"@,
        AsmLine::SetGe => "  setge al"@,
        AsmLine::SetNeDil => "  setne dil"@,
        AsmLine::MovzbRaxAl => "  movzb rax,al"@,
        AsmLine::AndAlDil => "  and al,dil"@,
        AsmLine::OrRdiRax => "  or rdi,rax"@,
        AsmLine::AndRaxRdi => "  and rax,rdi"@,
        AsmLine::OrRaxRdi => "  or rax,rdi"@,
        AsmLine::XorRaxRdi => "  xor rax,rdi"@,
        AsmLine::MovRcxRdi => "  mov rcx,rdi"@,
        AsmLine::ShlRaxCl => "  shl rax,cl"@,
        AsmLine::ShrRaxCl => "  shr rax,cl"@,
    }
}

/// The text of one assembly line.
pub fn render_line(line: &AsmLine) -> (r: String)
    ensures
        r@ == spec_line_text(*line),
{
    match line {
        AsmLine::SyntaxDirective => String::from_str(".intel_syntax noprefix"),
        AsmLine::Global(s) => {
            let mut t = String::from_str(".global ");
            t.append(s.as_str());
            t
        },
        AsmLine::FunLabel(s) => {
            let mut t = s.clone();
            t.append(":");
            t
        },
        AsmLine::Label(id) => {
            let mut t = label_text(*id);
            t.append(":");
            t
        },
        AsmLine::Jmp(id) => {
            let mut t = String::from_str("  jmp ");
            let l = label_text(*id);
            t.append(l.as_str());
            t
        },
        AsmLine::Je(id) => {
            let mut t = String::from_str("  je ");
            let l = label_text(*id);
            t.append(l.as_str());
            t
        },
        AsmLine::Jne(id) => {
            let mut t = String::from_str("  jne ");
            let l = label_text(*id);
            t.append(l.as_str());
            t
        },
        AsmLine::CallFn(s) => {
            let mut t = String::from_str("  call ");
            t.append(s.as_str());
            t
        },
        AsmLine::MovImm(v) => {
            let mut t = String::from_str("  mov rax,");
            let d = i64_text(*v as i64);
            proof {
                assert(*v as i64 as int == *v as int);
            }
            t.append(d.as_str());
            t
        },
        AsmLine::LoadVar(off) => {
            let mut t = String::from_str("  mov rax, [rbp");
            let d = offset_text(*off);
            t.append(d.as_str());
            t.append("]");
            t
        },
        AsmLine::StoreVar(off) => {
            let mut t = String::from_str("  mov [rbp");
            let d = offset_text(*off);
            t.append(d.as_str());
            t.append("], rax");
            t
        },
        AsmLine::AddVar(off) => {
            let mut t = String::from_str("  add [rbp");
            let d = offset_text(*off);
            t.append(d.as_str());
            t.append("], rax");
            t
        },
        AsmLine::SubVar(off) => {
            let mut t = String::from_str("  sub [rbp");
            let d = offset_text(*off);
            t.append(d.as_str());
            t.append("], rax");
            t
        },
        AsmLine::AddRsp(n) => {
            let mut t = String::from_str("  add rsp, ");
            let d = u64_text(*n);
            t.append(d.as_str());
            t
        },
        AsmLine::PushRbp => String::from_str("  push rbp"),
        AsmLine::MovRbpRsp => String::from_str("  mov rbp,rsp"),
        AsmLine::MovRspRbp => String::from_str("  mov rsp, rbp"),
        AsmLine::PopRbp => String::from_str("  pop rbp"),
        AsmLine::Ret => String::from_str("  ret"),
        AsmLine::PushRax => String::from_str("  push rax"),
        AsmLine::PushZero => String::from_str("  push 0"),
        AsmLine::PopRdi => String::from_str("  pop rdi"),
        AsmLine::PopRax => String::from_str("  pop rax"),
        AsmLine::MovRdiRax => String::from_str("  mov rdi, rax"),
        AsmLine::CmpRaxZero => String::from_str("  cmp rax,0"),
        AsmLine::CmpRdiZero => String::from_str("  cmp rdi,0"),
        AsmLine::CmpRaxRdi => String::from_str("  cmp rax,rdi"),
        AsmLine::NegRax => String::from_str("  neg rax"),
        AsmLine::AddRaxRdi => String::from_str("  add rax,rdi"),
        AsmLine::SubRaxRdi => String::from_str("  sub rax,rdi"),
        AsmLine::MulRdi => String::from_str("  mul rdi"),
        AsmLine::ClearRdx => String::from_str("  mov rdx,0"),
        AsmLine::DivRdi => String::from_str("  div rdi"),
        AsmLine::MovRaxRdx => String::from_str("  mov rax,rdx"),
        AsmLine::SetE => String::from_str("  sete al"),
        AsmLine::SetNe => String::from_str("  setne al"),
        AsmLine::SetL => String::from_str("  setl al"),
        AsmLine::SetLe => String::from_str("  setle al"),
        AsmLine::SetG => String::from_str("  setg al"),
        AsmLine::SetGe => String::from_str("  setge al"),
        AsmLine::SetNeDil => String::from_str("  setne dil"),
        AsmLine::MovzbRaxAl => String::from_str("  movzb rax,al"),
        AsmLine::AndAlDil => String::from_str("  and al,dil"),
        AsmLine::OrRdiRax => String::from_str("  or rdi,rax"),
        AsmLine::AndRaxRdi => String::from_str("  and rax,rdi"),
        AsmLine::OrRaxRdi => String::from_str("  or rax,rdi"),
        AsmLine::XorRaxRdi => String::from_str("  xor rax,rdi"),
        AsmLine::MovRcxRdi => String::from_str("  mov rcx,rdi"),
        AsmLine::ShlRaxCl => String::from_str("  shl rax,cl"),
        AsmLine::ShrRaxCl => String::from_str("  shr rax,cl"),
    }
}

/// The text of a whole listing: each line's text followed by a line break.
pub open spec fn spec_listing(lines: Seq<AsmLine>) -> Seq<char>
    decreases lines,
{
    if lines.len() == 0 {
        Seq::empty()
    } else {
        spec_listing(lines.drop_last()) + spec_line_text(lines.last()) + "\n"@
    }
}

/// Renders a whole listing, one line per assembly line.
pub fn render_program(lines: &Vec<AsmLine>) -> (r: String)
    ensures
        r@ == spec_listing(lines@),
{
    let mut s = String::new();
    let n = lines.len();
    let mut i: usize = 0;
    proof {
        assert(lines@.take(0) =~= Seq::<AsmLine>::empty());
    }
    while i < n
        invariant
            i <= n,
            n == lines@.len(),
            s@ == spec_listing(lines@.take(i as int)),
        decreases n - i,
    {
        let t = render_line(&lines[i]);
        s.append(t.as_str());
        s.append("\n");
        proof {
            assert(lines@.take(i as int + 1).drop_last() =~= lines@.take(i as int));
            assert(lines@.take(i as int + 1).last() == lines@[i as int]);
        }
        i = i + 1;
    }
    proof {
        assert(lines@.take(n as int) =~= lines@);
    }
    s
}

} // verus!
