//! Replay: a set of decoded constants, sent through the kernel in
//! dependency order, so that an environment built from untrusted data is
//! checked from scratch rather than trusted. Axioms, definitions,
//! theorems, opaque constants, inductive blocks and the quotient are
//! admitted by `Environment::add_decl`; constructors and recursors are
//! not sent but compared, at the end, with the ones the kernel generated
//! for their block. Unsafe constants and partial definitions are skipped.
//! Dependency chains are followed on an explicit stack no deeper than
//! `MAX_REC_DEPTH`; nothing here panics.
use crate::decl::{
    constant_info_eq, names_eq, AxiomVal, ConstantInfo, ConstantVal, Declaration, DefinitionSafety,
    DefinitionVal, InductiveType, OpaqueVal, TheoremVal,
};
use crate::checker::sort_in_scope;
use crate::env::{const_name, declares, keeps_names, lookup, repeated_later, Environment};
use crate::expr_laws::expr_has_level_mvar;
use crate::level::names_view;
use crate::expr::{expr_fits, has_syntax, Expr, ExprNode, SExpr};
use crate::guard::{RecGuard, MAX_REC_DEPTH};
use crate::error::{error_text, KernelError};
use crate::inductive::has_const_in;
use crate::name::{name_text, Name, NameComp};
use crate::shared::share;
use std::sync::Arc;
use vstd::prelude::*;

verus! {

/// A kernel error together with the declaration being replayed when it
/// was raised.
#[derive(Debug, Clone, PartialEq, Eq)]
pub struct ReplayError {
    pub decl: Arc<Name>,
    pub error: KernelError,
}

impl ReplayError {
    /// The message: the declaration being replayed, then the error's own
    /// message.
    pub fn to_string(&self) -> (r: String)
        ensures
            r@ == "while replaying declaration '"@ + name_text(self.decl@) + "': "@ + error_text(
                self.error,
            ),
    {
        let mut s = String::new();
        s.append("while replaying declaration '");
        let d = self.decl.to_string();
        s.append(d.as_str());
        s.append("': ");
        let m = self.error.to_string();
        s.append(m.as_str());
        proof {
            assert(s@ =~= "while replaying declaration '"@ + name_text(self.decl@) + "': "@
                + error_text(self.error));
        }
        s
    }
}

/// The counts a successful replay reports.
#[derive(Debug, Clone, Copy, PartialEq, Eq, Structural)]
pub struct ReplayStats {
    /// Declarations sent to the kernel: axioms, definitions, theorems,
    /// opaques, one per inductive block, and the quotient initialization.
    /// Constructors and recursors are compared, not sent, so they are not
    /// counted.
    pub checked: usize,
    /// Constants skipped because they are `unsafe` or `partial`.
    pub skipped_unsafe: usize,
}

/// Whether a constant is a `partial` definition, which replay skips as it
/// skips unsafe constants.
pub fn is_partial(ci: &ConstantInfo) -> (r: bool)
    ensures
        r == (ci matches ConstantInfo::Defn(v) && v.safety == DefinitionSafety::Partial),
{
    match ci {
        ConstantInfo::Defn(v) => v.safety == DefinitionSafety::Partial,
        _ => false,
    }
}

/// The name `Eq`, whose declaration the quotient constants need first.
pub fn eq_name() -> (r: Arc<Name>)
    ensures
        r@ == seq![NameComp::Str("Eq"@)],
{
    let r = Name::mk_str(Name::anonymous(), "Eq");
    proof {
        assert(r@ =~= seq![NameComp::Str("Eq"@)]);
    }
    r
}

/// Structural equality of two expressions, as replay compares a repeated
/// theorem's type with the one already admitted.
pub fn exprs_eq(a: &Arc<Expr>, b: &Arc<Expr>, g: &mut RecGuard) -> (r: Result<bool, KernelError>)
    ensures
        *final(g) == *old(g),
        r matches Ok(x) ==> (x ==> a@ == b@) && (!has_syntax(a@) ==> x == (a@ == b@)),
        r matches Err(e) ==> e is DeepRecursion,
        expr_fits(*old(g), a@) ==> r is Ok,
{
    Expr::structural_eq(a, b, g)
}

broadcast use {crate::expr::lemma_expr_view, crate::expr::lemma_node_view};

// ---------------------------------------------------------------------
// Dependencies.
// ---------------------------------------------------------------------

/// Whether `c` mentions a constant named by one of `ns`, in its type or
/// in its value.
pub open spec fn mentions(c: ConstantInfo, ns: Seq<Seq<NameComp>>) -> bool {
    ||| has_const_in(c.spec_constant_val().ty@, ns)
    ||| match c {
        ConstantInfo::Defn(v) => has_const_in(v.value@, ns),
        ConstantInfo::Thm(v) => has_const_in(v.value@, ns),
        ConstantInfo::Opaque(v) => has_const_in(v.value@, ns),
        _ => false,
    }
}

/// Every constant a term of `s` mentions, `c` mentions too.
spec fn within(c: ConstantInfo, s: Seq<Arc<Expr>>) -> bool {
    forall|k: int, ns: Seq<Seq<NameComp>>|
        0 <= k < s.len() && #[trigger] has_const_in(s[k]@, ns) ==> mentions(c, ns)
}

/// The names of the constants `c` mentions in its type and value, each
/// at least once. The walk uses a stack of its own; it gives up with
/// `DeepRecursion` only after `u64::MAX` steps.
pub fn used_constants(c: &ConstantInfo) -> (r: Result<Vec<Arc<Name>>, KernelError>)
    ensures
        r matches Ok(v) ==> forall|k: int| 0 <= k < v@.len() ==> mentions(*c, seq![(#[trigger] v@[k])@]),
        r matches Ok(v) ==> forall|n: Seq<NameComp>| #[trigger] mentions(*c, seq![n]) ==> lists_name(
            v@,
            n,
        ),
        r matches Err(e) ==> e is DeepRecursion,
        c is Axiom && c.spec_constant_val().ty@ is Sort ==> (r matches Ok(v) && v@.len() == 0),
{
    let ghost leaf = c is Axiom && c.spec_constant_val().ty@ is Sort;
    let mut stack: Vec<Arc<Expr>> = Vec::new();
    stack.push(share(&c.constant_val().ty));
    match c {
        ConstantInfo::Defn(v) => stack.push(share(&v.value)),
        ConstantInfo::Thm(v) => stack.push(share(&v.value)),
        ConstantInfo::Opaque(v) => stack.push(share(&v.value)),
        _ => {},
    }
    let mut out: Vec<Arc<Name>> = Vec::new();
    let mut fuel: u64 = u64::MAX;
    proof {
        assert forall|n: Seq<NameComp>| #[trigger] mentions(*c, seq![n]) implies lists_name(out@, n)
            || on_stack(stack@, n) by {
            if has_const_in(c.spec_constant_val().ty@, seq![n]) {
                assert(has_const_in(stack@[0]@, seq![n]));
            } else {
                assert(has_const_in(stack@[1]@, seq![n]));
            }
        }
    }
    while stack.len() > 0
        invariant
            within(*c, stack@),
            forall|n: Seq<NameComp>| #[trigger] mentions(*c, seq![n]) ==> lists_name(out@, n) || on_stack(
                stack@,
                n,
            ),
            forall|k: int| 0 <= k < out@.len() ==> mentions(*c, seq![(#[trigger] out@[k])@]),
            leaf == (c is Axiom && c.spec_constant_val().ty@ is Sort),
            leaf ==> out@.len() == 0 && (stack@.len() == 0 || (stack@.len() == 1 && stack@[0]@ is Sort
                && fuel == u64::MAX)),
        decreases fuel,
    {
        if fuel == 0 {
            return Err(KernelError::DeepRecursion);
        }
        fuel = fuel - 1;
        let ghost s0 = stack@;
        let e = stack.pop().unwrap();
        proof {
            assert forall|k: int, ns: Seq<Seq<NameComp>>|
                0 <= k < stack@.len() && #[trigger] has_const_in(stack@[k]@, ns) implies mentions(*c, ns) by {
                assert(old_stack_at(stack@, e, k));
            }
            assert forall|ns: Seq<Seq<NameComp>>| #[trigger] has_const_in(e@, ns) implies mentions(*c, ns) by {
            }
        }
        let ghost before = stack@;
        let ghost out0 = out@;
        match e.node() {
            ExprNode::Const { name, .. } => {
                proof {
                    assert(seq![name@][0] == name@);
                    assert(has_const_in(e@, seq![name@]));
                }
                out.push(share(name));
                proof {
                    assert forall|n: Seq<NameComp>| #[trigger] has_const_in(e@, seq![n]) implies lists_name(
                        out@,
                        n,
                    ) || on_stack(stack@, n) by {
                        assert(seq![n].contains(name@));
                        assert(out@[out@.len() - 1]@ == n);
                    }
                }
            },
            ExprNode::App { f, arg } => {
                stack.push(share(f));
                stack.push(share(arg));
                proof {
                    let l = before.len() as int;
                    assert forall|n: Seq<NameComp>| #[trigger] has_const_in(e@, seq![n]) implies lists_name(
                        out@,
                        n,
                    ) || on_stack(stack@, n) by {
                        if has_const_in(stack@[l]@, seq![n]) {
                        } else {
                            assert(has_const_in(stack@[l + 1]@, seq![n]));
                        }
                    }
                }
            },
            ExprNode::Lam { binder_type, body, .. } => {
                stack.push(share(binder_type));
                stack.push(share(body));
                proof {
                    let l = before.len() as int;
                    assert forall|n: Seq<NameComp>| #[trigger] has_const_in(e@, seq![n]) implies lists_name(
                        out@,
                        n,
                    ) || on_stack(stack@, n) by {
                        if has_const_in(stack@[l]@, seq![n]) {
                        } else {
                            assert(has_const_in(stack@[l + 1]@, seq![n]));
                        }
                    }
                }
            },
            ExprNode::ForallE { binder_type, body, .. } => {
                stack.push(share(binder_type));
                stack.push(share(body));
                proof {
                    let l = before.len() as int;
                    assert forall|n: Seq<NameComp>| #[trigger] has_const_in(e@, seq![n]) implies lists_name(
                        out@,
                        n,
                    ) || on_stack(stack@, n) by {
                        if has_const_in(stack@[l]@, seq![n]) {
                        } else {
                            assert(has_const_in(stack@[l + 1]@, seq![n]));
                        }
                    }
                }
            },
            ExprNode::LetE { ty, value, body, .. } => {
                stack.push(share(ty));
                stack.push(share(value));
                stack.push(share(body));
                proof {
                    let l = before.len() as int;
                    assert forall|n: Seq<NameComp>| #[trigger] has_const_in(e@, seq![n]) implies lists_name(
                        out@,
                        n,
                    ) || on_stack(stack@, n) by {
                        if has_const_in(stack@[l]@, seq![n]) {
                        } else if has_const_in(stack@[l + 1]@, seq![n]) {
                        } else {
                            assert(has_const_in(stack@[l + 2]@, seq![n]));
                        }
                    }
                }
            },
            ExprNode::MData { expr, .. } => {
                stack.push(share(expr));
                proof {
                    let l = before.len() as int;
                    assert forall|n: Seq<NameComp>| #[trigger] has_const_in(e@, seq![n]) implies lists_name(
                        out@,
                        n,
                    ) || on_stack(stack@, n) by {
                        assert(has_const_in(stack@[l]@, seq![n]));
                    }
                }
            },
            ExprNode::Proj { structure, .. } => {
                stack.push(share(structure));
                proof {
                    let l = before.len() as int;
                    assert forall|n: Seq<NameComp>| #[trigger] has_const_in(e@, seq![n]) implies lists_name(
                        out@,
                        n,
                    ) || on_stack(stack@, n) by {
                        assert(has_const_in(stack@[l]@, seq![n]));
                    }
                }
            },
            _ => {},
        }
        proof {
            assert(covered(e@, out@, stack@));
            assert forall|n: Seq<NameComp>| #[trigger] mentions(*c, seq![n]) implies lists_name(out@, n)
                || on_stack(stack@, n) by {
                if lists_name(out0, n) {
                    let k = choose|k: int| 0 <= k < out0.len() && (#[trigger] out0[k])@ == n;
                    assert(out@[k] == out0[k]);
                } else {
                    let k = choose|k: int| 0 <= k < s0.len() && #[trigger] has_const_in(s0[k]@, seq![n]);
                    if k < before.len() {
                        assert(s0[k] == before[k]);
                        assert(stack@[k] == before[k]);
                    } else {
                        assert(s0[k] == e);
                        assert(has_const_in(e@, seq![n]));
                    }
                }
            }
            assert forall|k: int, ns: Seq<Seq<NameComp>>|
                0 <= k < stack@.len() && #[trigger] has_const_in(stack@[k]@, ns) implies mentions(*c, ns) by {
                if k < before.len() {
                    assert(stack@[k] == before[k]);
                } else {
                    assert(has_const_in(e@, ns));
                }
            }
        }
    }
    Ok(out)
}

/// Some name of `v` is `n`.
pub open spec fn lists_name(v: Seq<Arc<Name>>, n: Seq<NameComp>) -> bool {
    exists|k: int| 0 <= k < v.len() && (#[trigger] v[k])@ == n
}

/// Some term of `s` mentions a constant named `n`.
spec fn on_stack(s: Seq<Arc<Expr>>, n: Seq<NameComp>) -> bool {
    exists|k: int| 0 <= k < s.len() && #[trigger] has_const_in(s[k]@, seq![n])
}

/// Every constant `e` mentions is listed in `out` or mentioned on the
/// stack `s`.
spec fn covered(e: SExpr, out: Seq<Arc<Name>>, s: Seq<Arc<Expr>>) -> bool {
    forall|n: Seq<NameComp>| #[trigger] has_const_in(e, seq![n]) ==> lists_name(out, n) || on_stack(s, n)
}

/// A spelled-out index step, for the trigger of `within`.
spec fn old_stack_at(s: Seq<Arc<Expr>>, e: Arc<Expr>, k: int) -> bool {
    s.push(e)[k] == s[k]
}

// ---------------------------------------------------------------------
// The replay driver.
// ---------------------------------------------------------------------

/// Whether replay skips `c`: an unsafe constant or a partial definition.
pub open spec fn skipped(c: ConstantInfo) -> bool {
    match c {
        ConstantInfo::Defn(v) => v.safety != DefinitionSafety::Safe,
        ConstantInfo::Axiom(v) => v.is_unsafe,
        ConstantInfo::Opaque(v) => v.is_unsafe,
        ConstantInfo::Induct(v) => v.is_unsafe,
        ConstantInfo::Ctor(v) => v.is_unsafe,
        ConstantInfo::Rec(v) => v.is_unsafe,
        _ => false,
    }
}

/// How many constants of `cs` replay skips.
pub open spec fn skipped_count(cs: Seq<ConstantInfo>) -> nat
    decreases cs.len(),
{
    if cs.len() == 0 {
        0
    } else {
        skipped_count(cs.drop_last()) + if skipped(cs.last()) {
            1nat
        } else {
            0nat
        }
    }
}

/// What a successful replay leaves in the environment `env` for a
/// constant it did not skip: an axiom, definition, theorem or opaque
/// constant is declared under its name; a constructor or recursor is
/// found there as a constructor or recursor (the one the kernel generated,
/// equal to the given one).
pub open spec fn replayed(env: Seq<ConstantInfo>, c: ConstantInfo) -> bool {
    match c {
        ConstantInfo::Axiom(_) | ConstantInfo::Defn(_) | ConstantInfo::Thm(_) | ConstantInfo::Opaque(
            _,
        ) => declares(env, const_name(c)),
        ConstantInfo::Ctor(_) => lookup(env, const_name(c)) matches Some(ConstantInfo::Ctor(_)),
        ConstantInfo::Rec(_) => lookup(env, const_name(c)) matches Some(ConstantInfo::Rec(_)),
        _ => true,
    }
}

/// A safe axiom whose universe parameters are distinct and whose type is
/// a sort over them, free of universe metavariables: the checks accept
/// it once its name is new.
pub open spec fn sort_axiom(c: ConstantInfo) -> bool {
    &&& c matches ConstantInfo::Axiom(v) && !v.is_unsafe
    &&& forall|i: int|
        0 <= i < c.spec_constant_val().level_params@.len() ==> !repeated_later(
            names_view(c.spec_constant_val().level_params@),
            i,
        )
    &&& sort_in_scope(c.spec_constant_val().ty@, names_view(c.spec_constant_val().level_params@))
    &&& !expr_has_level_mvar(c.spec_constant_val().ty@)
}

/// Every constant replay does not skip is such an axiom, with a name of
/// its own that `env` does not declare.
pub open spec fn sort_axioms_only(env: Seq<ConstantInfo>, cs: Seq<ConstantInfo>) -> bool {
    &&& forall|i: int| 0 <= i < cs.len() && !skipped(#[trigger] cs[i]) ==> sort_axiom(cs[i])
        && !declares(env, const_name(cs[i]))
    &&& forall|i: int, j: int|
        0 <= i < j < cs.len() && !skipped(#[trigger] cs[i]) && !skipped(#[trigger] cs[j])
            ==> const_name(cs[i]) != const_name(cs[j])
}

/// A name of a constant of `cs` that replay does not skip.
pub open spec fn replayed_name(cs: Seq<ConstantInfo>, n: Seq<NameComp>) -> bool {
    exists|i: int| 0 <= i < cs.len() && !skipped(#[trigger] cs[i]) && const_name(cs[i]) == n
}

fn is_skipped(c: &ConstantInfo) -> (r: bool)
    ensures
        r == skipped(*c),
{
    match c {
        ConstantInfo::Defn(v) => v.safety != DefinitionSafety::Safe,
        ConstantInfo::Axiom(v) => v.is_unsafe,
        ConstantInfo::Opaque(v) => v.is_unsafe,
        ConstantInfo::Induct(v) => v.is_unsafe,
        ConstantInfo::Ctor(v) => v.is_unsafe,
        ConstantInfo::Rec(v) => v.is_unsafe,
        _ => false,
    }
}

/// The first constant of `cs` named `n`.
fn find(cs: &Vec<ConstantInfo>, n: &Name) -> (r: Option<usize>)
    ensures
        r matches Some(i) ==> i < cs@.len() && const_name(cs@[i as int]) == n@,
        r is None ==> forall|i: int| 0 <= i < cs@.len() ==> const_name(#[trigger] cs@[i]) != n@,
{
    let mut i: usize = 0;
    while i < cs.len()
        invariant
            i <= cs@.len(),
            forall|j: int| 0 <= j < i ==> const_name(#[trigger] cs@[j]) != n@,
        decreases cs@.len() - i,
    {
        if cs[i].name().equal(n) {
            return Some(i);
        }
        i = i + 1;
    }
    None
}

fn copy_names(v: &Vec<Arc<Name>>) -> (r: Vec<Arc<Name>>)
    ensures
        r@ == v@,
{
    let mut out: Vec<Arc<Name>> = Vec::new();
    let mut i: usize = 0;
    while i < v.len()
        invariant
            i <= v@.len(),
            out@ == v@.take(i as int),
        decreases v@.len() - i,
    {
        out.push(share(&v[i]));
        i = i + 1;
        proof {
            assert(out@ =~= v@.take(i as int));
        }
    }
    proof {
        assert(v@.take(i as int) =~= v@);
    }
    out
}

fn copy_val(c: &ConstantVal) -> (r: ConstantVal)
    ensures
        r.name == c.name,
        r.level_params@ == c.level_params@,
        r.ty == c.ty,
{
    ConstantVal { name: share(&c.name), level_params: copy_names(&c.level_params), ty: share(&c.ty) }
}

/// The declaration that admits the axiom, definition, theorem or opaque
/// constant `c`.
fn single_decl(c: &ConstantInfo) -> (r: Declaration)
    requires
        c is Axiom || c is Defn || c is Thm || c is Opaque,
    ensures
        crate::admission::is_single(r),
        const_name(crate::admission::declared_constant(r)) == const_name(*c),
        c matches ConstantInfo::Axiom(v) ==> (r matches Declaration::Axiom(w) && w.is_unsafe
            == v.is_unsafe && w.val.name@ == v.val.name@ && w.val.level_params@ == v.val.level_params@
            && w.val.ty@ == v.val.ty@),
{
    match c {
        ConstantInfo::Axiom(v) => Declaration::Axiom(AxiomVal { val: copy_val(&v.val), is_unsafe: v.is_unsafe }),
        ConstantInfo::Defn(v) => Declaration::Defn(
            DefinitionVal {
                val: copy_val(&v.val),
                value: share(&v.value),
                hints: v.hints,
                safety: v.safety,
                all: copy_names(&v.all),
            },
        ),
        ConstantInfo::Thm(v) => Declaration::Thm(
            TheoremVal { val: copy_val(&v.val), value: share(&v.value), all: copy_names(&v.all) },
        ),
        ConstantInfo::Opaque(v) => Declaration::Opaque(
            OpaqueVal {
                val: copy_val(&v.val),
                value: share(&v.value),
                is_unsafe: v.is_unsafe,
                all: copy_names(&v.all),
            },
        ),
        _ => {
            proof {
                assert(false);
            }
            Declaration::Quot
        },
    }
}

/// One constant whose dependencies are being replayed: the names still to
/// visit, and, in the second phase of an inductive block or of the
/// quotient, the declaration to admit after them.
struct Frame {
    idx: usize,
    deps: Vec<Arc<Name>>,
    next: usize,
    late: bool,
    block: Option<Declaration>,
}

/// Which constants are still to replay, which are under way, and which
/// constructors and recursors wait for the final comparison.
struct Progress {
    remaining: Vec<bool>,
    pending: Vec<bool>,
    postponed: Vec<usize>,
    checked: usize,
}

/// What replay has done for the `i`-th constant once it is neither to do
/// nor under way.
spec fn settled(p: Progress, cs: Seq<ConstantInfo>, env: Seq<ConstantInfo>, i: int) -> bool {
    match cs[i] {
        ConstantInfo::Axiom(_) | ConstantInfo::Defn(_) | ConstantInfo::Thm(_) | ConstantInfo::Opaque(
            _,
        ) => declares(env, const_name(cs[i])),
        ConstantInfo::Ctor(_) | ConstantInfo::Rec(_) => p.postponed@.contains(i as usize),
        _ => true,
    }
}

spec fn progress_ok(p: Progress, cs: Seq<ConstantInfo>, env: Seq<ConstantInfo>) -> bool {
    &&& p.remaining@.len() == cs.len()
    &&& p.pending@.len() == cs.len()
    &&& forall|k: int| 0 <= k < p.postponed@.len() ==> #[trigger] p.postponed@[k] < cs.len()
    &&& forall|i: int| 0 <= i < cs.len() && skipped(#[trigger] cs[i]) ==> !p.remaining@[i] && !p.pending@[i]
    &&& forall|i: int|
        0 <= i < cs.len() && !skipped(cs[i]) && !p.remaining@[i] && !p.pending@[i] ==> #[trigger] settled(
            p,
            cs,
            env,
            i,
        )
}

spec fn frames_ok(fs: Seq<Frame>, p: Progress, cs: Seq<ConstantInfo>) -> bool {
    &&& forall|k: int|
        0 <= k < fs.len() ==> (#[trigger] fs[k]).idx < cs.len() && !skipped(cs[fs[k].idx as int])
            && !p.remaining@[fs[k].idx as int]
    &&& forall|k: int|
        0 <= k < fs.len() && !(cs[(#[trigger] fs[k]).idx as int] is Induct) ==> p.pending@[fs[k].idx as int]
    &&& forall|k: int|
        0 <= k < fs.len() && (#[trigger] fs[k]).late ==> fs[k].block is Some && (cs[fs[k].idx as int] is Induct
            || cs[fs[k].idx as int] is Quot)
    &&& forall|i: int|
        0 <= i < cs.len() && #[trigger] p.pending@[i] ==> exists|k: int| 0 <= k < fs.len() && fs[k].idx == i
    &&& forall|k1: int, k2: int|
        0 <= k1 < fs.len() && 0 <= k2 < fs.len() && k1 != k2 ==> (#[trigger] fs[k1]).idx != (
        #[trigger] fs[k2]).idx
}

/// A frame for the `j`-th constant, which was still to replay.
fn start(cs: &Vec<ConstantInfo>, p: &mut Progress, j: usize) -> (r: Result<Frame, ReplayError>)
    requires
        j < cs@.len(),
        old(p).remaining@.len() == cs@.len(),
        old(p).pending@.len() == cs@.len(),
    ensures
        final(p).remaining@ == old(p).remaining@.update(j as int, false),
        final(p).pending@ == old(p).pending@.update(j as int, true),
        final(p).postponed@ == old(p).postponed@,
        final(p).checked == old(p).checked,
        r matches Ok(f) ==> f.idx == j && !f.late && f.next == 0 && f.block is None,
        sort_axiom(cs@[j as int]) ==> (r matches Ok(f) && f.deps@.len() == 0),
{
    p.remaining.set(j, false);
    p.pending.set(j, true);
    match used_constants(&cs[j]) {
        Ok(deps) => Ok(Frame { idx: j, deps, next: 0, late: false, block: None }),
        Err(error) => Err(ReplayError { decl: Name::anonymous(), error }),
    }
}

/// Names declared in `prev` and kept in `new` stay declared over a chain.
proof fn lemma_keeps_trans(a: Seq<ConstantInfo>, b: Seq<ConstantInfo>, c: Seq<ConstantInfo>)
    requires
        keeps_names(a, b),
        keeps_names(b, c),
    ensures
        keeps_names(a, c),
{
    assert forall|n: Seq<NameComp>| declares(c, n) implies #[trigger] declares(a, n) by {
        assert(declares(b, n));
    }
}

/// `lookup` finds exactly the declared names.
proof fn lemma_lookup_iff(cs: Seq<ConstantInfo>, n: Seq<NameComp>)
    ensures
        lookup(cs, n) is Some <==> declares(cs, n),
{
}

/// A name found by `lookup` is declared.
proof fn lemma_lookup_declares(cs: Seq<ConstantInfo>, n: Seq<NameComp>)
    requires
        lookup(cs, n) is Some,
    ensures
        declares(cs, n),
{
}

/// What replay has settled stays settled while the environment keeps its
/// names and the postponed list is unchanged.
proof fn lemma_settled_keeps(
    p: Progress,
    q: Progress,
    cs: Seq<ConstantInfo>,
    old_env: Seq<ConstantInfo>,
    new_env: Seq<ConstantInfo>,
)
    requires
        keeps_names(new_env, old_env),
        p.postponed@.len() <= q.postponed@.len(),
        forall|k: int| 0 <= k < p.postponed@.len() ==> #[trigger] q.postponed@[k] == p.postponed@[k],
    ensures
        forall|i: int| 0 <= i < cs.len() && #[trigger] settled(p, cs, old_env, i) ==> settled(q, cs, new_env, i),
{
    assert forall|i: int| 0 <= i < cs.len() && #[trigger] settled(p, cs, old_env, i) implies settled(
        q,
        cs,
        new_env,
        i,
    ) by {
        if cs[i] is Ctor || cs[i] is Rec {
            let k = choose|k: int| 0 <= k < p.postponed@.len() && p.postponed@[k] == i as usize;
            assert(q.postponed@[k] == i as usize);
        }
    }
}

/// Admits the axiom, definition, theorem or opaque constant `cs[idx]`;
/// a theorem already declared with the same name, type, universe
/// parameters and mutual block is accepted as it is.
fn act_single(cs: &Vec<ConstantInfo>, env: &mut Environment, p: &mut Progress, idx: usize) -> (r: Result<
    (),
    ReplayError,
>)
    requires
        idx < cs@.len(),
        cs@[idx as int] is Axiom || cs@[idx as int] is Defn || cs@[idx as int] is Thm || cs@[
            idx as int
        ] is Opaque,
        old(p).pending@.len() == cs@.len(),
    ensures
        keeps_names(final(env).constants(), old(env).constants()),
        final(p).remaining@ == old(p).remaining@,
        final(p).postponed@ == old(p).postponed@,
        r is Ok ==> final(p).pending@ == old(p).pending@.update(idx as int, false) && declares(
            final(env).constants(),
            const_name(cs@[idx as int]),
        ),
        r is Err ==> final(p).pending@ == old(p).pending@,
        r is Ok ==> final(p).checked == old(p).checked || final(p).checked == old(p).checked + 1,
        sort_axiom(cs@[idx as int]) && !declares(old(env).constants(), const_name(cs@[idx as int]))
            && old(p).checked < usize::MAX ==> r is Ok && final(p).checked == old(p).checked + 1
            && forall|n: Seq<NameComp>| #[trigger]
                declares(final(env).constants(), n) <==> (declares(old(env).constants(), n) || n
                    == const_name(cs@[idx as int])),
{
    let c = &cs[idx];
    let name = share(c.name());
    if let ConstantInfo::Thm(v) = c {
        let tolerated = match env.get(&name) {
            Some(ConstantInfo::Thm(existing)) => {
                if existing.val.name.equal(&v.val.name) {
                    let mut g = RecGuard::new();
                    match exprs_eq(&existing.val.ty, &v.val.ty, &mut g) {
                        Ok(b) => b && names_eq(&existing.val.level_params, &v.val.level_params)
                            && names_eq(&existing.all, &v.all),
                        Err(error) => {
                            return Err(ReplayError { decl: Name::anonymous(), error });
                        },
                    }
                } else {
                    false
                }
            },
            _ => false,
        };
        if tolerated {
            p.pending.set(idx, false);
            proof {
                lemma_lookup_declares(env.constants(), name@);
            }
            return Ok(());
        }
    }
    let d = single_decl(c);
    let ghost e0 = env.constants();
    proof {
        if sort_axiom(*c) && !declares(e0, const_name(*c)) {
            assert(crate::admission::simply_typed(e0, d));
        }
    }
    match env.add_decl(d) {
        Ok(()) => {
            proof {
                assert forall|n: Seq<NameComp>| #[trigger]
                    declares(env.constants(), n) <==> (declares(e0, n) || n == const_name(*c)) by {
                    lemma_lookup_iff(env.constants(), n);
                    lemma_lookup_iff(e0, n);
                    assert(lookup(env.constants(), n) == (if n == const_name(
                        crate::admission::declared_constant(d),
                    ) {
                        Some(crate::admission::declared_constant(d))
                    } else {
                        lookup(e0, n)
                    }));
                }
            }
            if p.checked < usize::MAX {
                p.checked = p.checked + 1;
            }
            p.pending.set(idx, false);
            proof {
                lemma_lookup_declares(env.constants(), const_name(cs@[idx as int]));
            }
            Ok(())
        },
        Err(error) => Err(ReplayError { decl: name, error }),
    }
}

/// The inductive block of `cs[idx]`: its members (named by the block's
/// `all`), each with its constructors, as one declaration, and the
/// constants the constructors mention. The members are no longer to do.
fn build_block(cs: &Vec<ConstantInfo>, p: &mut Progress, idx: usize) -> (r: Result<
    (Declaration, Vec<Arc<Name>>),
    ReplayError,
>)
    requires
        idx < cs@.len(),
        cs@[idx as int] is Induct,
        old(p).remaining@.len() == cs@.len(),
        old(p).pending@.len() == cs@.len(),
    ensures
        final(p).postponed@ == old(p).postponed@,
        final(p).checked == old(p).checked,
        final(p).remaining@.len() == cs@.len(),
        final(p).pending@.len() == cs@.len(),
        forall|i: int|
            0 <= i < cs@.len() && !old(p).remaining@[i] ==> !(#[trigger] final(p).remaining@[i]),
        forall|i: int| 0 <= i < cs@.len() && #[trigger] final(p).pending@[i] ==> old(p).pending@[i],
        forall|i: int|
            0 <= i < cs@.len() && !(#[trigger] cs@[i] is Induct) ==> final(p).remaining@[i]
                == old(p).remaining@[i] && final(p).pending@[i] == old(p).pending@[i],
        forall|i: int|
            0 <= i < cs@.len() && old(p).remaining@[i] && !(#[trigger] final(p).remaining@[i])
                ==> !final(p).pending@[i],
        r matches Ok(x) ==> x.0 is Inductive,
{
    let name = share(cs[idx].name());
    let iv = match &cs[idx] {
        ConstantInfo::Induct(v) => v,
        _ => {
            proof {
                assert(false);
            }
            return Err(ReplayError { decl: name, error: KernelError::DeepRecursion });
        },
    };
    let mut members: Vec<usize> = Vec::new();
    let mut k: usize = 0;
    while k < iv.all.len()
        invariant
            forall|m: int| 0 <= m < members@.len() ==> #[trigger] members@[m] < cs@.len(),
            *p == *old(p),
            old(p).remaining@.len() == cs@.len(),
            old(p).pending@.len() == cs@.len(),
        decreases iv.all@.len() - k,
    {
        match find(cs, &iv.all[k]) {
            Some(j) => members.push(j),
            None => {
                return Err(
                    ReplayError {
                        decl: share(&name),
                        error: KernelError::MissingConstant(share(&iv.all[k])),
                    },
                );
            },
        }
        k = k + 1;
    }
    let mut types: Vec<InductiveType> = Vec::new();
    let mut ctor_idx: Vec<usize> = Vec::new();
    let mut m: usize = 0;
    while m < members.len()
        invariant
            forall|a: int| 0 <= a < members@.len() ==> #[trigger] members@[a] < cs@.len(),
            forall|a: int| 0 <= a < m ==> cs@[#[trigger] members@[a] as int] is Induct,
            forall|a: int| 0 <= a < ctor_idx@.len() ==> #[trigger] ctor_idx@[a] < cs@.len(),
            *p == *old(p),
            old(p).remaining@.len() == cs@.len(),
            old(p).pending@.len() == cs@.len(),
        decreases members@.len() - m,
    {
        let j = members[m];
        let miv = match &cs[j] {
            ConstantInfo::Induct(v) => v,
            other => {
                return Err(
                    ReplayError {
                        decl: share(&name),
                        error: KernelError::InvalidInductive {
                            name: share(other.name()),
                            what: "mutual block member is not an inductive",
                        },
                    },
                );
            },
        };
        let mut ctors: Vec<(Arc<Name>, Arc<Expr>)> = Vec::new();
        let mut c: usize = 0;
        while c < miv.ctors.len()
            invariant
                forall|a: int| 0 <= a < ctor_idx@.len() ==> #[trigger] ctor_idx@[a] < cs@.len(),
                *p == *old(p),
                old(p).remaining@.len() == cs@.len(),
                old(p).pending@.len() == cs@.len(),
            old(p).remaining@.len() == cs@.len(),
            old(p).pending@.len() == cs@.len(),
            decreases miv.ctors@.len() - c,
        {
            match find(cs, &miv.ctors[c]) {
                Some(kk) => {
                    ctors.push((share(cs[kk].name()), share(&cs[kk].constant_val().ty)));
                    ctor_idx.push(kk);
                },
                None => {
                    return Err(
                        ReplayError {
                            decl: share(&name),
                            error: KernelError::MissingConstant(share(&miv.ctors[c])),
                        },
                    );
                },
            }
            c = c + 1;
        }
        types.push(InductiveType { name: share(&miv.val.name), ty: share(&miv.val.ty), ctors });
        m = m + 1;
    }
    let mut m: usize = 0;
    while m < members.len()
        invariant
            forall|a: int| 0 <= a < members@.len() ==> #[trigger] members@[a] < cs@.len(),
            forall|a: int| 0 <= a < members@.len() ==> cs@[#[trigger] members@[a] as int] is Induct,
            p.postponed@ == old(p).postponed@,
            p.checked == old(p).checked,
            p.remaining@.len() == cs@.len(),
            p.pending@.len() == cs@.len(),
            forall|i: int|
                0 <= i < cs@.len() && !old(p).remaining@[i] ==> !(#[trigger] p.remaining@[i]),
            forall|i: int| 0 <= i < cs@.len() && #[trigger] p.pending@[i] ==> old(p).pending@[i],
            forall|i: int|
                0 <= i < cs@.len() && !(#[trigger] cs@[i] is Induct) ==> p.remaining@[i]
                    == old(p).remaining@[i] && p.pending@[i] == old(p).pending@[i],
            forall|i: int|
                0 <= i < cs@.len() && old(p).remaining@[i] && !(#[trigger] p.remaining@[i])
                    ==> !p.pending@[i],
        decreases members@.len() - m,
    {
        let j = members[m];
        proof {
            assert(cs@[members@[m as int] as int] is Induct);
        }
        p.remaining.set(j, false);
        p.pending.set(j, false);
        m = m + 1;
    }
    let mut deps: Vec<Arc<Name>> = Vec::new();
    let mut a: usize = 0;
    while a < ctor_idx.len()
        invariant
            forall|b: int| 0 <= b < ctor_idx@.len() ==> #[trigger] ctor_idx@[b] < cs@.len(),
            p.postponed@ == old(p).postponed@,
            p.checked == old(p).checked,
            p.remaining@.len() == cs@.len(),
            p.pending@.len() == cs@.len(),
            forall|i: int|
                0 <= i < cs@.len() && !old(p).remaining@[i] ==> !(#[trigger] p.remaining@[i]),
            forall|i: int| 0 <= i < cs@.len() && #[trigger] p.pending@[i] ==> old(p).pending@[i],
            forall|i: int|
                0 <= i < cs@.len() && !(#[trigger] cs@[i] is Induct) ==> p.remaining@[i]
                    == old(p).remaining@[i] && p.pending@[i] == old(p).pending@[i],
            forall|i: int|
                0 <= i < cs@.len() && old(p).remaining@[i] && !(#[trigger] p.remaining@[i])
                    ==> !p.pending@[i],
        decreases ctor_idx@.len() - a,
    {
        match used_constants(&cs[ctor_idx[a]]) {
            Ok(ds) => {
                let mut b: usize = 0;
                while b < ds.len()
                    decreases ds@.len() - b,
                {
                    deps.push(share(&ds[b]));
                    b = b + 1;
                }
            },
            Err(error) => {
                return Err(ReplayError { decl: Name::anonymous(), error });
            },
        }
        a = a + 1;
    }
    let block = Declaration::Inductive {
        lparams: copy_names(&iv.val.level_params),
        nparams: iv.num_params.clone(),
        types,
        is_unsafe: false,
    };
    Ok((block, deps))
}

/// Replays the `root`-th constant and, first, every constant it depends
/// on that is still to do, on an explicit stack that, like nested calls
/// under the depth guard, holds at most `MAX_REC_DEPTH` constants.
fn run_from(cs: &Vec<ConstantInfo>, env: &mut Environment, p: &mut Progress, root: usize) -> (r:
    Result<(), ReplayError>)
    requires
        root < cs@.len(),
        progress_ok(*old(p), cs@, old(env).constants()),
        old(p).remaining@[root as int],
        forall|i: int| 0 <= i < cs@.len() ==> !(#[trigger] old(p).pending@[i]),
    ensures
        keeps_names(final(env).constants(), old(env).constants()),
        r is Ok ==> progress_ok(*final(p), cs@, final(env).constants()),
        r is Ok ==> forall|i: int| 0 <= i < cs@.len() ==> !(#[trigger] final(p).pending@[i]),
        r is Ok ==> !final(p).remaining@[root as int],
        r is Ok ==> forall|i: int|
            0 <= i < cs@.len() && !old(p).remaining@[i] ==> !(#[trigger] final(p).remaining@[i]),
        sort_axiom(cs@[root as int]) && !declares(old(env).constants(), const_name(cs@[root as int]))
            && old(p).checked < usize::MAX ==> r is Ok && final(p).checked == old(p).checked + 1
            && final(p).postponed@ == old(p).postponed@ && final(p).remaining@ == old(
            p,
        ).remaining@.update(root as int, false) && forall|n: Seq<NameComp>| #[trigger]
            declares(final(env).constants(), n) <==> (declares(old(env).constants(), n) || n
                == const_name(cs@[root as int])),
{
    proof {
        assert(!skipped(cs@[root as int]));
    }
    let ghost simple = sort_axiom(cs@[root as int]) && !declares(
        old(env).constants(),
        const_name(cs@[root as int]),
    ) && old(p).checked < usize::MAX;
    let first = start(cs, p, root)?;
    let mut frames: Vec<Frame> = Vec::new();
    frames.push(first);
    proof {
        assert(frames@[0].idx == root);
        assert forall|i: int| 0 <= i < cs@.len() && !skipped(cs@[i]) && !p.remaining@[i]
            && !p.pending@[i] implies #[trigger] settled(*p, cs@, env.constants(), i) by {
            assert(i != root);
            assert(settled(*old(p), cs@, env.constants(), i));
        }
    }
    let mut fuel: u64 = u64::MAX;
    while frames.len() > 0
        invariant
            progress_ok(*p, cs@, env.constants()),
            frames_ok(frames@, *p, cs@),
            keeps_names(env.constants(), old(env).constants()),
            root < cs@.len(),
            !p.remaining@[root as int],
            forall|i: int| 0 <= i < cs@.len() && !old(p).remaining@[i] ==> !(#[trigger] p.remaining@[i]),
            old(p).remaining@.len() == cs@.len(),
            simple == (sort_axiom(cs@[root as int]) && !declares(
                old(env).constants(),
                const_name(cs@[root as int]),
            ) && old(p).checked < usize::MAX),
            simple ==> p.postponed@ == old(p).postponed@ && p.remaining@ == old(p).remaining@.update(
                root as int,
                false,
            ),
            simple ==> (frames@.len() == 1 && frames@[0].idx == root && frames@[0].deps@.len() == 0
                && !frames@[0].late && fuel == u64::MAX && env.constants() == old(env).constants()
                && p.checked == old(p).checked && p.pending@[root as int]) || (frames@.len() == 0
                && p.checked == old(p).checked + 1 && forall|n: Seq<NameComp>| #[trigger]
                declares(env.constants(), n) <==> (declares(old(env).constants(), n) || n
                    == const_name(cs@[root as int]))),
        decreases fuel,
    {
        if fuel == 0 {
            return Err(ReplayError { decl: Name::anonymous(), error: KernelError::DeepRecursion });
        }
        fuel = fuel - 1;
        let ghost fs0 = frames@;
        let mut f = frames.pop().unwrap();
        let ghost p0 = *p;
        let ghost e0 = env.constants();
        proof {
            assert(fs0 == frames@.push(f));
            assert(fs0[fs0.len() - 1] == f);
        }
        if f.next < f.deps.len() {
            let dep = share(&f.deps[f.next]);
            f.next = f.next + 1;
            if frames.len() + 1 >= MAX_REC_DEPTH as usize {
                return Err(ReplayError { decl: Name::anonymous(), error: KernelError::DeepRecursion });
            }
            frames.push(f);
            proof {
                assert(frames@ =~= fs0.update(fs0.len() - 1, f));
                assert forall|i: int| 0 <= i < cs@.len() && #[trigger] p.pending@[i] implies exists|k: int|
                    0 <= k < frames@.len() && frames@[k].idx == i by {
                    let k = choose|k: int| 0 <= k < fs0.len() && fs0[k].idx == i;
                    assert(frames@[k].idx == i);
                }
                assert(frames_ok(frames@, *p, cs@)) by {
                    assert forall|k: int| 0 <= k < frames@.len() implies (#[trigger] frames@[k]).idx
                        == fs0[k].idx && frames@[k].late == fs0[k].late && frames@[k].block
                        == fs0[k].block by {}
                }
            }
            match find(cs, &dep) {
                Some(j) => {
                    if p.remaining[j] {
                        let ghost fs1 = frames@;
                        let ghost p1 = *p;
                        proof {
                            assert(!skipped(cs@[j as int]));
                        }
                        let nf = start(cs, p, j)?;
                        frames.push(nf);
                        proof {
                            assert(frames@ == fs1.push(nf));
                            assert forall|i: int|
                                0 <= i < cs@.len() && !skipped(cs@[i]) && !p.remaining@[i]
                                    && !p.pending@[i] implies #[trigger] settled(
                                *p,
                                cs@,
                                env.constants(),
                                i,
                            ) by {
                                assert(i != j);
                                assert(settled(p1, cs@, env.constants(), i));
                            }
                            assert forall|i: int| 0 <= i < cs@.len() && #[trigger] p.pending@[i] implies exists|
                                k: int,
                            | 0 <= k < frames@.len() && frames@[k].idx == i by {
                                if i == j {
                                    assert(frames@[frames@.len() - 1].idx == i);
                                } else {
                                    assert(p1.pending@[i]);
                                    let k = choose|k: int| 0 <= k < fs1.len() && fs1[k].idx == i;
                                    assert(frames@[k].idx == i);
                                }
                            }
                            assert forall|k: int| 0 <= k < frames@.len() implies (#[trigger] frames@[k]).idx
                                < cs@.len() && !skipped(cs@[frames@[k].idx as int])
                                && !p.remaining@[frames@[k].idx as int] by {
                                if k < fs1.len() {
                                    assert(frames@[k] == fs1[k]);
                                }
                            }
                            assert forall|k: int|
                                0 <= k < frames@.len() && !(cs@[(#[trigger] frames@[k]).idx as int] is Induct)
                                    implies p.pending@[frames@[k].idx as int] by {
                                if k < fs1.len() {
                                    assert(frames@[k] == fs1[k]);
                                }
                            }
                            assert forall|k: int|
                                0 <= k < frames@.len() && (#[trigger] frames@[k]).late
                                    implies frames@[k].block is Some && (cs@[frames@[k].idx as int] is Induct
                                    || cs@[frames@[k].idx as int] is Quot) by {
                                if k < fs1.len() {
                                    assert(frames@[k] == fs1[k]);
                                }
                            }
                        }
                    }
                },
                None => {},
            }
            proof {
                assert(frames_ok(frames@, *p, cs@));
            }
        } else if !f.late {
            let idx = f.idx;
            proof {
                assert(fs0[fs0.len() - 1].idx == idx);
            }
            if !p.pending[idx] {
                proof {
                    assert forall|i: int| 0 <= i < cs@.len() && #[trigger] p.pending@[i] implies exists|
                        k: int,
                    | 0 <= k < frames@.len() && frames@[k].idx == i by {
                        let k = choose|k: int| 0 <= k < fs0.len() && fs0[k].idx == i;
                        assert(k != fs0.len() - 1);
                        assert(frames@[k] == fs0[k]);
                    }
                    assert(frames_ok(frames@, *p, cs@)) by {
                        assert forall|k: int| 0 <= k < frames@.len() implies #[trigger] frames@[k]
                            == fs0[k] by {}
                    }
                }
                continue;
            }
            match &cs[idx] {
                ConstantInfo::Ctor(_) | ConstantInfo::Rec(_) => {
                    p.postponed.push(idx);
                    p.pending.set(idx, false);
                    proof {
                        assert(p.postponed@[p.postponed@.len() - 1] == idx);
                        assert forall|k: int| 0 <= k < p0.postponed@.len() implies #[trigger] p.postponed@[k]
                            == p0.postponed@[k] by {}
                        lemma_settled_keeps(p0, *p, cs@, e0, e0);
                        assert forall|i: int|
                            0 <= i < cs@.len() && !skipped(cs@[i]) && !p.remaining@[i]
                                && !p.pending@[i] implies #[trigger] settled(*p, cs@, env.constants(), i) by {
                            if i != idx {
                                assert(settled(p0, cs@, e0, i));
                            }
                        }
                    }
                },
                ConstantInfo::Quot(_) => {
                    let mut deps: Vec<Arc<Name>> = Vec::new();
                    deps.push(eq_name());
                    f.deps = deps;
                    f.next = 0;
                    f.late = true;
                    f.block = Some(Declaration::Quot);
                    frames.push(f);
                    proof {
                        assert(frames@ =~= fs0.update(fs0.len() - 1, f));
                        assert forall|i: int| 0 <= i < cs@.len() && #[trigger] p.pending@[i] implies exists|
                            k: int,
                        | 0 <= k < frames@.len() && frames@[k].idx == i by {
                            let k = choose|k: int| 0 <= k < fs0.len() && fs0[k].idx == i;
                            assert(frames@[k].idx == i);
                        }
                        assert forall|k: int| 0 <= k < frames@.len() && (#[trigger] frames@[k]).late
                            implies frames@[k].block is Some && (cs@[frames@[k].idx as int] is Induct
                            || cs@[frames@[k].idx as int] is Quot) by {
                            if k < fs0.len() - 1 {
                                assert(frames@[k] == fs0[k]);
                            }
                        }
                        assert forall|k: int| 0 <= k < frames@.len() implies (#[trigger] frames@[k]).idx
                            == fs0[k].idx by {}
                        assert(frames_ok(frames@, *p, cs@));
                    }
                },
                ConstantInfo::Induct(_) => {
                    let (block, deps) = build_block(cs, p, idx)?;
                    proof {
                        assert(p.remaining@.len() == cs@.len());
                        assert(p0.remaining@.len() == cs@.len());
                        assert(forall|i: int|
                            0 <= i < cs@.len() ==> (p.remaining@[i] == p0.remaining@[i] && p.pending@[i]
                                == p0.pending@[i]) || (#[trigger] cs@[i] is Induct && !p.remaining@[i]
                                && !p.pending@[i]));
                    }
                    f.deps = deps;
                    f.next = 0;
                    f.late = true;
                    f.block = Some(block);
                    frames.push(f);
                    proof {
                        assert(frames@ =~= fs0.update(fs0.len() - 1, f));
                        assert forall|k: int| 0 <= k < frames@.len() implies (#[trigger] frames@[k]).idx
                            < cs@.len() && !skipped(cs@[frames@[k].idx as int])
                            && !p.remaining@[frames@[k].idx as int] by {
                            assert(frames@[k].idx == fs0[k].idx);
                            assert(!p0.remaining@[fs0[k].idx as int]);
                        }
                        assert forall|i: int|
                            0 <= i < cs@.len() && !skipped(cs@[i]) && !p.remaining@[i]
                                && !p.pending@[i] implies #[trigger] settled(*p, cs@, env.constants(), i) by {
                            if !(cs@[i] is Induct) {
                                assert(settled(p0, cs@, e0, i));
                            }
                        }
                        assert forall|i: int| 0 <= i < cs@.len() && skipped(#[trigger] cs@[i]) implies !p.remaining@[i]
                            && !p.pending@[i] by {
                            assert(!p0.remaining@[i] && !p0.pending@[i]);
                        }
                        assert forall|i: int| 0 <= i < cs@.len() && !old(p).remaining@[i] implies !(
                        #[trigger] p.remaining@[i]) by {
                            assert(cs@[i] == cs@[i]);
                            assert(!p0.remaining@[i]);
                        }
                        assert(!p0.remaining@[root as int]);
                        assert(!p.remaining@[root as int]);
                        assert forall|i: int| 0 <= i < cs@.len() && #[trigger] p.pending@[i] implies exists|
                            k: int,
                        | 0 <= k < frames@.len() && frames@[k].idx == i by {
                            assert(cs@[i] == cs@[i]);
                            assert(p0.pending@[i]);
                            let k = choose|k: int| 0 <= k < fs0.len() && fs0[k].idx == i;
                            assert(frames@[k].idx == i);
                        }
                        assert forall|k: int| 0 <= k < frames@.len() implies (#[trigger] frames@[k]).idx
                            == fs0[k].idx by {}
                        assert forall|k: int|
                            0 <= k < frames@.len() && !(cs@[(#[trigger] frames@[k]).idx as int] is Induct)
                                implies p.pending@[frames@[k].idx as int] by {
                            assert(cs@[fs0[k].idx as int] == cs@[fs0[k].idx as int]);
                            assert(p0.pending@[fs0[k].idx as int]);
                        }
                        assert forall|k: int|
                            0 <= k < frames@.len() && (#[trigger] frames@[k]).late
                                implies frames@[k].block is Some && (cs@[frames@[k].idx as int] is Induct
                                || cs@[frames@[k].idx as int] is Quot) by {
                            if k < fs0.len() - 1 {
                                assert(frames@[k] == fs0[k]);
                            }
                        }
                        assert(frames_ok(frames@, *p, cs@));
                    }
                },
                _ => {
                    act_single(cs, env, p, idx)?;
                    proof {
                        lemma_settled_keeps(p0, *p, cs@, e0, env.constants());
                        lemma_keeps_trans(env.constants(), e0, old(env).constants());
                        assert forall|i: int|
                            0 <= i < cs@.len() && !skipped(cs@[i]) && !p.remaining@[i]
                                && !p.pending@[i] implies #[trigger] settled(*p, cs@, env.constants(), i) by {
                            if i != idx {
                                assert(settled(p0, cs@, e0, i));
                            }
                        }
                    }
                },
            }
            proof {
                if !(cs@[idx as int] is Quot || cs@[idx as int] is Induct) {
                    assert forall|i: int| 0 <= i < cs@.len() && #[trigger] p.pending@[i] implies exists|
                        k: int,
                    | 0 <= k < frames@.len() && frames@[k].idx == i by {
                        let k = choose|k: int| 0 <= k < fs0.len() && fs0[k].idx == i;
                        assert(k != fs0.len() - 1);
                        assert(frames@[k] == fs0[k]);
                    }
                    assert forall|k: int| 0 <= k < frames@.len() implies #[trigger] frames@[k] == fs0[k] by {}
                    assert(frames_ok(frames@, *p, cs@));
                }
            }
        } else {
            let idx = f.idx;
            proof {
                assert(fs0[fs0.len() - 1].idx == idx);
            }
            let name = share(cs[idx].name());
            let d = match f.block {
                Some(d) => d,
                None => {
                    proof {
                        assert(false);
                    }
                    Declaration::Quot
                },
            };
            match env.add_decl(d) {
                Ok(()) => {
                    if p.checked < usize::MAX {
                        p.checked = p.checked + 1;
                    }
                },
                Err(error) => {
                    return Err(ReplayError { decl: name, error });
                },
            }
            p.pending.set(idx, false);
            proof {
                lemma_settled_keeps(p0, *p, cs@, e0, env.constants());
                lemma_keeps_trans(env.constants(), e0, old(env).constants());
                assert forall|i: int|
                    0 <= i < cs@.len() && !skipped(cs@[i]) && !p.remaining@[i] && !p.pending@[i] implies #[trigger] settled(
                    *p,
                    cs@,
                    env.constants(),
                    i,
                ) by {
                    if i != idx {
                        assert(settled(p0, cs@, e0, i));
                    }
                }
                assert forall|i: int| 0 <= i < cs@.len() && #[trigger] p.pending@[i] implies exists|
                    k: int,
                | 0 <= k < frames@.len() && frames@[k].idx == i by {
                    let k = choose|k: int| 0 <= k < fs0.len() && fs0[k].idx == i;
                    assert(k != fs0.len() - 1);
                    assert(frames@[k] == fs0[k]);
                }
                assert forall|k: int| 0 <= k < frames@.len() implies #[trigger] frames@[k] == fs0[k] by {}
                assert(frames_ok(frames@, *p, cs@));
            }
        }
    }
    Ok(())
}

/// Compares the postponed constructors (`ctors`) or recursors (`!ctors`)
/// with the ones the kernel generated under the same names; a missing or
/// different one fails with `ConstructorMismatch` or `RecursorMismatch`.
fn check_postponed(cs: &Vec<ConstantInfo>, env: &Environment, postponed: &Vec<usize>, ctors: bool) -> (r:
    Result<(), ReplayError>)
    requires
        forall|k: int| 0 <= k < postponed@.len() ==> #[trigger] postponed@[k] < cs@.len(),
    ensures
        postponed@.len() == 0 ==> r is Ok,
        r is Ok ==> forall|k: int|
            0 <= k < postponed@.len() ==> {
                let c = cs@[#[trigger] postponed@[k] as int];
                (ctors && c is Ctor ==> lookup(env.constants(), const_name(c)) matches Some(
                    ConstantInfo::Ctor(_),
                )) && (!ctors && c is Rec ==> lookup(env.constants(), const_name(c)) matches Some(
                    ConstantInfo::Rec(_),
                ))
            },
{
    let mut k: usize = 0;
    while k < postponed.len()
        invariant
            k <= postponed@.len(),
            forall|a: int| 0 <= a < postponed@.len() ==> #[trigger] postponed@[a] < cs@.len(),
            forall|a: int|
                0 <= a < k ==> {
                    let c = cs@[#[trigger] postponed@[a] as int];
                    (ctors && c is Ctor ==> lookup(env.constants(), const_name(c)) matches Some(
                        ConstantInfo::Ctor(_),
                    )) && (!ctors && c is Rec ==> lookup(env.constants(), const_name(c)) matches Some(
                        ConstantInfo::Rec(_),
                    ))
                },
        decreases postponed@.len() - k,
    {
        let idx = postponed[k];
        let decoded = &cs[idx];
        let wanted = match decoded {
            ConstantInfo::Ctor(_) => ctors,
            ConstantInfo::Rec(_) => !ctors,
            _ => false,
        };
        if wanted {
            let name = decoded.name();
            let same = match env.get(name) {
                Some(regenerated) => {
                    let kinds_match = match (decoded, regenerated) {
                        (ConstantInfo::Ctor(_), ConstantInfo::Ctor(_)) => true,
                        (ConstantInfo::Rec(_), ConstantInfo::Rec(_)) => true,
                        _ => false,
                    };
                    if kinds_match {
                        let mut g = RecGuard::new();
                        match constant_info_eq(decoded, regenerated, &mut g) {
                            Ok(x) => x,
                            Err(error) => {
                                return Err(ReplayError { decl: share(name), error });
                            },
                        }
                    } else {
                        false
                    }
                },
                None => false,
            };
            if !same {
                let error = if ctors {
                    KernelError::ConstructorMismatch(share(name))
                } else {
                    KernelError::RecursorMismatch(share(name))
                };
                return Err(ReplayError { decl: share(name), error });
            }
        }
        k = k + 1;
    }
    Ok(())
}

/// Replays `constants` into `env`, each in dependency order: the
/// constants a constant mentions are admitted before it, the members and
/// constructors of an inductive block are admitted together as one
/// declaration, and the quotient only after `Eq`. Unsafe constants and
/// partial definitions are skipped and counted. At the end each
/// constructor and recursor given is compared with the one the kernel
/// generated for its block. The first error stops the replay; what was
/// admitted before it stays in `env`.
pub fn replay(env: &mut Environment, constants: Vec<ConstantInfo>) -> (r: Result<
    ReplayStats,
    ReplayError,
>)
    ensures
        keeps_names(final(env).constants(), old(env).constants()),
        r matches Ok(s) ==> s.skipped_unsafe == skipped_count(constants@),
        r is Ok ==> forall|i: int|
            0 <= i < constants@.len() && !skipped(constants@[i]) ==> #[trigger] replayed(
                final(env).constants(),
                constants@[i],
            ),
        sort_axioms_only(old(env).constants(), constants@) ==> (r matches Ok(s) && s.checked
            == constants@.len() - skipped_count(constants@)) && forall|n: Seq<NameComp>|
            #[trigger] declares(final(env).constants(), n) <==> (declares(old(env).constants(), n)
                || replayed_name(constants@, n)),
{
    let ghost simple = sort_axioms_only(old(env).constants(), constants@);
    let n = constants.len();
    let mut skipped_unsafe: usize = 0;
    let mut remaining: Vec<bool> = Vec::new();
    let mut pending: Vec<bool> = Vec::new();
    let mut i: usize = 0;
    while i < n
        invariant
            i <= n,
            n == constants@.len(),
            remaining@.len() == i,
            pending@.len() == i,
            skipped_unsafe == skipped_count(constants@.take(i as int)),
            skipped_unsafe <= i,
            forall|j: int| 0 <= j < i ==> #[trigger] remaining@[j] == !skipped(constants@[j]),
            forall|j: int| 0 <= j < i ==> !(#[trigger] pending@[j]),
        decreases n - i,
    {
        let s = is_skipped(&constants[i]);
        if s {
            skipped_unsafe = skipped_unsafe + 1;
        }
        remaining.push(!s);
        pending.push(false);
        proof {
            assert(constants@.take(i + 1).drop_last() =~= constants@.take(i as int));
            assert(constants@.take(i + 1).last() == constants@[i as int]);
        }
        i = i + 1;
    }
    proof {
        assert(constants@.take(n as int) =~= constants@);
    }
    let mut p = Progress { remaining, pending, postponed: Vec::new(), checked: 0 };
    let ghost rem0 = p.remaining@;
    let mut i: usize = 0;
    while i < n
        invariant
            i <= n,
            n == constants@.len(),
            progress_ok(p, constants@, env.constants()),
            forall|j: int| 0 <= j < n ==> !(#[trigger] p.pending@[j]),
            forall|j: int| 0 <= j < i ==> !(#[trigger] p.remaining@[j]),
            keeps_names(env.constants(), old(env).constants()),
            simple == sort_axioms_only(old(env).constants(), constants@),
            forall|j: int| 0 <= j < n ==> #[trigger] rem0[j] == !skipped(constants@[j]),
            simple ==> p.postponed@.len() == 0 && p.checked == i - skipped_count(
                constants@.take(i as int),
            ) && (forall|j: int| i <= j < n ==> #[trigger] p.remaining@[j] == rem0[j]) && forall|
                m: Seq<NameComp>,
            | #[trigger]
                declares(env.constants(), m) <==> (declares(old(env).constants(), m)
                    || replayed_name(constants@.take(i as int), m)),
        decreases n - i,
    {
        proof {
            assert(constants@.take(i + 1).drop_last() =~= constants@.take(i as int));
            assert(constants@.take(i + 1).last() == constants@[i as int]);
            if simple {
                lemma_skipped_count_bound(constants@.take(i as int));
            }
        }
        if p.remaining[i] {
            let ghost e0 = env.constants();
            proof {
                if simple {
                    let c = constants@[i as int];
                    assert(!skipped(c));
                    assert(!declares(e0, const_name(c))) by {
                        if declares(e0, const_name(c)) {
                            if !declares(old(env).constants(), const_name(c)) {
                                let k = choose|k: int|
                                    0 <= k < constants@.take(i as int).len() && !skipped(
                                        #[trigger] constants@.take(i as int)[k],
                                    ) && const_name(constants@.take(i as int)[k]) == const_name(c);
                                assert(constants@.take(i as int)[k] == constants@[k]);
                            }
                        }
                    }
                }
            }
            run_from(&constants, env, &mut p, i)?;
            proof {
                lemma_keeps_trans(env.constants(), e0, old(env).constants());
            }
        }
        proof {
            if simple {
                assert forall|m: Seq<NameComp>| #[trigger] declares(env.constants(), m) <==> (
                declares(old(env).constants(), m) || replayed_name(constants@.take(i + 1), m)) by {
                    let t = constants@.take(i as int);
                    let t1 = constants@.take(i + 1);
                    if replayed_name(t, m) {
                        let k = choose|k: int| 0 <= k < t.len() && !skipped(#[trigger] t[k])
                            && const_name(t[k]) == m;
                        assert(t1[k] == t[k]);
                    }
                    if replayed_name(t1, m) {
                        let k = choose|k: int| 0 <= k < t1.len() && !skipped(#[trigger] t1[k])
                            && const_name(t1[k]) == m;
                        if k < i {
                            assert(t[k] == t1[k]);
                        }
                    }
                    if !skipped(constants@[i as int]) {
                        assert(t1[i as int] == constants@[i as int]);
                    }
                }
            }
        }
        i = i + 1;
    }
    check_postponed(&constants, env, &p.postponed, true)?;
    check_postponed(&constants, env, &p.postponed, false)?;
    proof {
        assert forall|i: int|
            0 <= i < constants@.len() && !skipped(constants@[i]) implies #[trigger] replayed(
            env.constants(),
            constants@[i],
        ) by {
            assert(settled(p, constants@, env.constants(), i));
            if constants@[i] is Ctor || constants@[i] is Rec {
                let k = choose|k: int|
                    0 <= k < p.postponed@.len() && p.postponed@[k] == i as usize;
                assert(p.postponed@[k] < constants@.len());
            }
        }
    }
    proof {
        if simple {
            assert(constants@.take(n as int) =~= constants@);
        }
    }
    Ok(ReplayStats { checked: p.checked, skipped_unsafe })
}

proof fn lemma_skipped_count_bound(cs: Seq<ConstantInfo>)
    ensures
        skipped_count(cs) <= cs.len(),
    decreases cs.len(),
{
    if cs.len() > 0 {
        lemma_skipped_count_bound(cs.drop_last());
    }
}

} // verus!
