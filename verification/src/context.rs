//! The per-function, per-traversal state of the code generator: where each
//! variable lives in the stack frame, which names the current lexical block
//! has declared, the next free stack slot, and the enclosing loop's break
//! and continue labels.

use vstd::prelude::*;
use crate::assembly::LabelId;

verus! {

/// The code generator's name-resolution state. `var_map` holds one entry
/// per binding in insertion order; the latest entry for a name is its
/// current frame offset, so shadowing across blocks resolves to the most
/// recent declaration. `current_scope` holds only the names declared
/// directly in the present block. `stack_index` is the next unused local
/// slot's offset. The two labels are the enclosing loop's break and
/// continue targets, absent outside any loop.
#[derive(Debug)]
pub struct Context {
    pub var_map: Vec<(String, i64)>,
    pub current_scope: Vec<String>,
    pub stack_index: i64,
    pub break_label: Option<LabelId>,
    pub continue_label: Option<LabelId>,
}

/// The bindings an entry list denotes: the latest entry for a name wins.
pub open spec fn vm_map(v: Seq<(String, i64)>) -> Map<Seq<char>, int>
    decreases v,
{
    if v.len() == 0 {
        Map::empty()
    } else {
        vm_map(v.drop_last()).insert(v.last().0@, v.last().1 as int)
    }
}

/// Entries beyond `k` that never bind `name` do not change what the map
/// says of `name`.
proof fn lemma_vm_map_skip(v: Seq<(String, i64)>, name: Seq<char>, k: int)
    requires
        0 <= k <= v.len(),
        forall|t: int| k <= t < v.len() ==> (#[trigger] v[t]).0@ != name,
    ensures
        vm_map(v).dom().contains(name) == vm_map(v.take(k)).dom().contains(name),
        vm_map(v).dom().contains(name) ==> vm_map(v)[name] == vm_map(v.take(k))[name],
    decreases v.len() - k,
{
    if k < v.len() {
        lemma_vm_map_skip(v, name, k + 1);
        assert(v.take(k + 1).drop_last() =~= v.take(k));
        assert(v.take(k + 1).last() == v[k]);
    } else {
        assert(v.take(k) =~= v);
    }
}

/// Some entry of the scope list is this name.
pub open spec fn scope_contains(s: Seq<String>, name: Seq<char>) -> bool {
    exists|i: int| 0 <= i < s.len() && (#[trigger] s[i])@ == name
}

/// The names a sequence of parameter names binds.
pub open spec fn names_of(params: Seq<String>) -> Set<Seq<char>> {
    Set::new(|n: Seq<char>| exists|i: int| 0 <= i < params.len() && (#[trigger] params[i])@ == n)
}

/// The mathematical shape of a context: the frame offset of each live
/// name (the latest binding wins), which names the current block holds,
/// the next free slot, and whether break and continue have targets.
#[verifier::ext_equal]
pub struct SpecCtx {
    pub vars: Map<Seq<char>, int>,
    pub scope: Set<Seq<char>>,
    pub si: int,
    pub brk: Option<LabelId>,
    pub cont: Option<LabelId>,
}

impl View for Context {
    type V = SpecCtx;

    open spec fn view(&self) -> SpecCtx {
        SpecCtx {
            vars: vm_map(self.var_map@),
            scope: Set::new(|n: Seq<char>| scope_contains(self.current_scope@, n)),
            si: self.stack_index as int,
            brk: self.break_label,
            cont: self.continue_label,
        }
    }
}

/// Looks a name up in the map; the latest binding wins. `Some` holds the
/// offset of exactly that binding, and comes back exactly when some
/// binding holds the name.
pub fn vm_get(v: &Vec<(String, i64)>, name: &String) -> (r: Option<i64>)
    ensures
        match r {
            Option::Some(off) => vm_map(v@).dom().contains(name@) && vm_map(v@)[name@]
                == off as int,
            Option::None => !vm_map(v@).dom().contains(name@),
        },
{
    let n = v.len();
    let mut k = n;
    while k > 0
        invariant
            k <= n,
            n == v@.len(),
            forall|t: int| k <= t < n ==> (#[trigger] v@[t]).0@ != name@,
        decreases k,
    {
        k = k - 1;
        if v[k].0 == *name {
            proof {
                lemma_vm_map_skip(v@, name@, k + 1);
                assert(v@.take(k + 1).drop_last() =~= v@.take(k as int));
                assert(v@.take(k + 1).last() == v@[k as int]);
            }
            return Option::Some(v[k].1);
        }
    }
    proof {
        lemma_vm_map_skip(v@, name@, 0);
        assert(v@.take(0) =~= Seq::<(String, i64)>::empty());
    }
    Option::None
}

/// True exactly when the block has declared this name.
pub fn scope_has(s: &Vec<String>, name: &String) -> (r: bool)
    ensures
        r == scope_contains(s@, name@),
{
    let n = s.len();
    let mut k: usize = 0;
    while k < n
        invariant
            k <= n,
            n == s@.len(),
            forall|t: int| 0 <= t < k ==> (#[trigger] s@[t])@ != name@,
        decreases n - k,
    {
        if s[k] == *name {
            return true;
        }
        k = k + 1;
    }
    false
}

/// An exact copy of a variable map.
fn dup_var_map(v: &Vec<(String, i64)>) -> (r: Vec<(String, i64)>)
    ensures
        r@ == v@,
{
    let n = v.len();
    let mut r: Vec<(String, i64)> = Vec::new();
    let mut k: usize = 0;
    while k < n
        invariant
            k <= n,
            n == v@.len(),
            r@.len() == k,
            forall|t: int| 0 <= t < k ==> r@[t] == v@[t],
        decreases n - k,
    {
        r.push((v[k].0.clone(), v[k].1));
        k = k + 1;
    }
    proof {
        assert(r@ =~= v@);
    }
    r
}

/// An exact copy of a scope list.
fn dup_scope(s: &Vec<String>) -> (r: Vec<String>)
    ensures
        r@ == s@,
{
    let n = s.len();
    let mut r: Vec<String> = Vec::new();
    let mut k: usize = 0;
    while k < n
        invariant
            k <= n,
            n == s@.len(),
            r@.len() == k,
            forall|t: int| 0 <= t < k ==> r@[t] == s@[t],
        decreases n - k,
    {
        r.push(s[k].clone());
        k = k + 1;
    }
    proof {
        assert(r@ =~= s@);
    }
    r
}

/// The bindings the parameter list induces: the parameter at position
/// `i` lives at offset `16 + 8 i`; a repeated name keeps its last
/// position's offset.
pub open spec fn params_map(params: Seq<String>) -> Map<Seq<char>, int>
    decreases params,
{
    if params.len() == 0 {
        Map::empty()
    } else {
        params_map(params.drop_last()).insert(params.last()@, 16 + 8 * (params.len() - 1))
    }
}

impl Context {
    /// The context a function body starts from: each parameter pre-seeded
    /// at a positive offset — the first at `+16`, then eight bytes apart in
    /// order (`params_map`) — all parameters in the initial scope, locals
    /// to grow from `-8`, and no enclosing loop.
    pub fn new(params: &Vec<String>) -> (c: Context)
        requires
            16 + 8 * params@.len() <= i64::MAX,
        ensures
            c@.vars == params_map(params@),
            c@.scope =~= names_of(params@),
            c.stack_index == -8,
            c.break_label is None,
            c.continue_label is None,
    {
        let n = params.len();
        let mut var_map: Vec<(String, i64)> = Vec::new();
        let mut current_scope: Vec<String> = Vec::new();
        let mut param_offset: i64 = 16;
        let mut k: usize = 0;
        while k < n
            invariant
                k <= n,
                n == params@.len(),
                16 + 8 * n <= i64::MAX,
                param_offset == 16 + 8 * k,
                var_map@.len() == k,
                current_scope@.len() == k,
                forall|t: int| 0 <= t < k ==> (#[trigger] var_map@[t]).0 == params@[t],
                forall|t: int| 0 <= t < k ==> (#[trigger] var_map@[t]).1 == 16 + 8 * t,
                forall|t: int| 0 <= t < k ==> (#[trigger] current_scope@[t]) == params@[t],
            decreases n - k,
        {
            var_map.push((params[k].clone(), param_offset));
            current_scope.push(params[k].clone());
            param_offset = param_offset + 8;
            k = k + 1;
        }
        let c = Context {
            var_map,
            current_scope,
            stack_index: -8,
            break_label: Option::None,
            continue_label: Option::None,
        };
        proof {
            lemma_offsets_fold(c.var_map@, params@);
            assert forall|nm: Seq<char>| c@.scope.contains(nm) implies names_of(
                params@,
            ).contains(nm) by {
                let i = choose|i: int|
                    0 <= i < c.current_scope@.len() && (#[trigger] c.current_scope@[i])@ == nm;
                assert((params@[i])@ == nm);
            }
            assert forall|nm: Seq<char>| names_of(params@).contains(nm) implies c@.scope.contains(
                nm,
            ) by {
                let i = choose|i: int| 0 <= i < params@.len() && (#[trigger] params@[i])@ == nm;
                assert((c.current_scope@[i])@ == nm);
            }
        }
        c
    }

    /// The same context with an empty current scope: what a nested block
    /// starts from. Variables, the next free slot and the loop labels are
    /// kept.
    pub fn reset_scope(&self) -> (c: Context)
        ensures
            c@.vars == self@.vars,
            c@.scope =~= Set::<Seq<char>>::empty(),
            c.var_map@ == self.var_map@,
            c.stack_index == self.stack_index,
            c.break_label == self.break_label,
            c.continue_label == self.continue_label,
    {
        let c = Context {
            var_map: dup_var_map(&self.var_map),
            current_scope: Vec::new(),
            stack_index: self.stack_index,
            break_label: self.break_label,
            continue_label: self.continue_label,
        };
        c
    }

    /// An exact copy.
    pub fn duplicate(&self) -> (c: Context)
        ensures
            c.var_map@ == self.var_map@,
            c.current_scope@ == self.current_scope@,
            c.stack_index == self.stack_index,
            c.break_label == self.break_label,
            c.continue_label == self.continue_label,
            c@ == self@,
    {
        let c = Context {
            var_map: dup_var_map(&self.var_map),
            current_scope: dup_scope(&self.current_scope),
            stack_index: self.stack_index,
            break_label: self.break_label,
            continue_label: self.continue_label,
        };
        proof {
            assert(c@.scope =~= self@.scope);
            assert(c@ =~= self@);
        }
        c
    }
}

/// A map built by pushing each parameter at its positional offset denotes
/// exactly `params_map`.
proof fn lemma_offsets_fold(v: Seq<(String, i64)>, params: Seq<String>)
    requires
        v.len() == params.len(),
        forall|t: int| 0 <= t < v.len() ==> (#[trigger] v[t]).0 == params[t],
        forall|t: int| 0 <= t < v.len() ==> (#[trigger] v[t]).1 == 16 + 8 * t,
    ensures
        vm_map(v) == params_map(params),
    decreases v,
{
    if v.len() > 0 {
        assert(v.drop_last().len() == params.drop_last().len());
        lemma_offsets_fold(v.drop_last(), params.drop_last());
        assert(v.last() == v[v.len() - 1]);
        assert(params.last() == params[params.len() - 1]);
    }
}

} // verus!
