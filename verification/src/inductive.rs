//! Helpers of inductive admission: the names it derives (recursor names,
//! hygienic macro scopes, prefix replacement, appending), and the
//! searches and rewrites it runs on types (type annotations, loose bound
//! variables, implicit binders, occurrences of the types being declared).
//! Every walk over a name is a loop; every walk over an expression runs
//! under the recursion guard.
use crate::expr::{app_args, app_fn, lemma_expr_view, lemma_node_view, BinderInfo, Expr, ExprNode, SExpr};
use crate::error::KernelError;
use crate::guard::{RecGuard, MAX_REC_DEPTH};
use crate::level::{level_eval, levels_view, names_view, Level, SLevel};
use crate::level_laws::{
    lemma_normalize_eval, lemma_offset_exact, lemma_offset_split, offsets_exact,
};
use crate::name::{Name, NameComp};
use crate::num::{nat_decimal, Nat};
use crate::shared::share;
use std::sync::Arc;
use vstd::prelude::*;

verus! {

broadcast use {lemma_expr_view, lemma_node_view};

// ---------------------------------------------------------------------
// Names.
// ---------------------------------------------------------------------

/// One component of a name, as a value.
enum Part {
    Str(String),
    Num(Nat),
}

spec fn part_view(p: Part) -> NameComp {
    match p {
        Part::Str(s) => NameComp::Str(s@),
        Part::Num(n) => NameComp::Num(n@),
    }
}

/// The views of parts collected leaf first, root first again.
spec fn parts_view(ps: Seq<Part>) -> Seq<NameComp> {
    Seq::new(ps.len(), |i: int| part_view(ps[ps.len() - 1 - i]))
}

/// The one-component name `s`.
pub fn mk_simple_name(s: &str) -> (r: Arc<Name>)
    ensures
        r@ == seq![NameComp::Str(s@)],
{
    let r = Name::mk_str(Name::anonymous(), s);
    proof {
        assert(r@ =~= seq![NameComp::Str(s@)]);
    }
    r
}

/// The recursor of the inductive type `i`: `i.rec`.
pub fn mk_rec_name(i: &Arc<Name>) -> (r: Arc<Name>)
    ensures
        r@ == i@.push(NameComp::Str("rec"@)),
{
    Name::mk_str(share(i), "rec")
}

/// The prefix under which nested occurrences get auxiliary names.
pub fn nested_prefix() -> (r: Arc<Name>)
    ensures
        r@ == seq![NameComp::Str("_nested"@)],
{
    mk_simple_name("_nested")
}

/// The universe parameters `ps` as levels.
pub fn lparams_to_levels(ps: &[Arc<Name>]) -> (r: Vec<Arc<Level>>)
    ensures
        levels_view(r@) == names_view(ps@).map_values(|n: Seq<NameComp>| SLevel::Param(n)),
{
    let mut out: Vec<Arc<Level>> = Vec::new();
    let mut i: usize = 0;
    while i < ps.len()
        invariant
            i <= ps@.len(),
            out@.len() == i,
            forall|j: int| 0 <= j < i ==> (#[trigger] out@[j])@ == SLevel::Param(ps@[j]@),
        decreases ps@.len() - i,
    {
        out.push(Arc::new(Level::Param(share(&ps[i]))));
        i = i + 1;
    }
    proof {
        assert(levels_view(out@) =~= names_view(ps@).map_values(
            |n: Seq<NameComp>| SLevel::Param(n),
        ));
    }
    out
}

/// Whether a name carries hygienic macro scopes: past its trailing
/// numeric components, its last string component is `_hyg`.
pub open spec fn has_macro_scopes_spec(v: Seq<NameComp>) -> bool
    decreases v.len(),
{
    if v.len() == 0 {
        false
    } else {
        match v.last() {
            NameComp::Str(s) => s == "_hyg"@,
            NameComp::Num(_) => has_macro_scopes_spec(v.drop_last()),
        }
    }
}

/// Whether `n` carries hygienic macro scopes (`has_macro_scopes_spec`).
pub fn has_macro_scopes(n: &Arc<Name>) -> (r: bool)
    ensures
        r == has_macro_scopes_spec(n@),
{
    let mut cur: &Name = n;
    loop
        invariant
            has_macro_scopes_spec(n@) == has_macro_scopes_spec(cur@),
        decreases cur@.len(),
    {
        match cur {
            Name::Str { part, .. } => {
                proof {
                    reveal_strlit("_hyg");
                }
                return string_is(part, "_hyg");
            },
            Name::Num { parent, .. } => {
                proof {
                    assert(cur@.drop_last() =~= parent@);
                }
                cur = parent;
            },
            Name::Anonymous => {
                return false;
            },
        }
    }
}

/// Whether the string `s` is `t`.
fn string_is(s: &String, t: &str) -> (r: bool)
    ensures
        r == (s@ == t@),
{
    let a = crate::name::string_chars(s.as_str());
    let b = crate::name::string_chars(t);
    if a.len() != b.len() {
        return false;
    }
    let mut i: usize = 0;
    while i < a.len()
        invariant
            a@ == s@,
            b@ == t@,
            a@.len() == b@.len(),
            i <= a@.len(),
            forall|j: int| 0 <= j < i ==> a@[j] == b@[j],
        decreases a@.len() - i,
    {
        if a[i] != b[i] {
            return false;
        }
        i = i + 1;
    }
    proof {
        assert(a@ =~= b@);
    }
    true
}

/// The base of a hygienic name: everything before its last `_@`
/// component (the empty name when there is none).
pub open spec fn erase_macro_scopes_spec(v: Seq<NameComp>) -> Seq<NameComp>
    decreases v.len(),
{
    if v.len() == 0 {
        v
    } else {
        match v.last() {
            NameComp::Str(s) => if s == "_@"@ {
                v.drop_last()
            } else {
                erase_macro_scopes_spec(v.drop_last())
            },
            NameComp::Num(_) => erase_macro_scopes_spec(v.drop_last()),
        }
    }
}

/// The base of a hygienic name (`erase_macro_scopes_spec`).
pub fn erase_macro_scopes_aux(n: &Arc<Name>) -> (r: Arc<Name>)
    ensures
        r@ == erase_macro_scopes_spec(n@),
{
    let mut cur: &Arc<Name> = n;
    loop
        invariant
            erase_macro_scopes_spec(n@) == erase_macro_scopes_spec(cur@),
        decreases cur@.len(),
    {
        match &**cur {
            Name::Str { parent, part } => {
                proof {
                    assert(cur@.drop_last() =~= parent@);
                }
                if string_is(part, "_@") {
                    return share(parent);
                }
                cur = parent;
            },
            Name::Num { parent, .. } => {
                proof {
                    assert(cur@.drop_last() =~= parent@);
                }
                cur = parent;
            },
            Name::Anonymous => {
                return Name::anonymous();
            },
        }
    }
}

/// The components of `n` as values, collected from the leaf up.
fn parts_to_root(n: &Name) -> (r: Vec<Part>)
    ensures
        parts_view(r@) == n@,
{
    let mut parts: Vec<Part> = Vec::new();
    let mut cur: &Name = n;
    loop
        invariant
            n@ == cur@ + parts_view(parts@),
        ensures
            n@ == parts_view(parts@),
        decreases cur@.len(),
    {
        match cur {
            Name::Anonymous => {
                proof {
                    assert(cur@ + parts_view(parts@) =~= parts_view(parts@));
                }
                break ;
            },
            Name::Str { parent, part } => {
                let p = Part::Str(part.clone());
                proof {
                    assert(parts_view(parts@.push(p)) =~= seq![NameComp::Str(part@)] + parts_view(
                        parts@,
                    ));
                    assert(cur@ =~= parent@.push(NameComp::Str(part@)));
                    assert(parent@ + (seq![NameComp::Str(part@)] + parts_view(parts@)) =~= cur@
                        + parts_view(parts@));
                }
                parts.push(p);
                cur = parent;
            },
            Name::Num { parent, part } => {
                let p = Part::Num(part.clone());
                proof {
                    assert(parts_view(parts@.push(p)) =~= seq![NameComp::Num(part@)] + parts_view(
                        parts@,
                    ));
                    assert(cur@ =~= parent@.push(NameComp::Num(part@)));
                    assert(parent@ + (seq![NameComp::Num(part@)] + parts_view(parts@)) =~= cur@
                        + parts_view(parts@));
                }
                parts.push(p);
                cur = parent;
            },
        }
    }
    parts
}

/// `base` extended by the parts, the last collected (nearest the root)
/// first.
fn extend_by_parts(base: Arc<Name>, parts: Vec<Part>) -> (r: Arc<Name>)
    ensures
        r@ == base@ + parts_view(parts@),
{
    let ghost pv = parts_view(parts@);
    let ghost b0 = base@;
    let mut parts = parts;
    let mut result = base;
    proof {
        assert(b0 + pv.take(0) =~= b0);
    }
    while parts.len() > 0
        invariant
            pv.len() >= parts@.len(),
            forall|i: int|
                0 <= i < parts@.len() ==> pv[pv.len() - 1 - i] == part_view(#[trigger] parts@[i]),
            result@ == b0 + pv.take(pv.len() - parts@.len()),
        decreases parts@.len(),
    {
        let ghost k: int = pv.len() - parts@.len();
        let p = parts.pop().unwrap();
        proof {
            assert(pv[k] == part_view(p));
            assert(pv.take(k + 1) =~= pv.take(k).push(pv[k]));
        }
        result = match p {
            Part::Str(s) => Arc::new(Name::Str { parent: result, part: s }),
            Part::Num(v) => Arc::new(Name::Num { parent: result, part: v }),
        };
    }
    proof {
        assert(pv.take(pv.len() as int) =~= pv);
    }
    result
}

/// All the components of `n1` followed by all those of `n2`.
pub fn name_append(n1: &Arc<Name>, n2: &Arc<Name>) -> (r: Arc<Name>)
    ensures
        r@ == n1@ + n2@,
{
    let parts = parts_to_root(n2);
    extend_by_parts(share(n1), parts)
}

/// `v` with its prefix `pre` replaced by `new_pre`; `v` itself when `pre`
/// is no prefix of it.
pub open spec fn replace_prefix_spec(
    v: Seq<NameComp>,
    pre: Seq<NameComp>,
    new_pre: Seq<NameComp>,
) -> Seq<NameComp> {
    if pre.len() <= v.len() && v.take(pre.len() as int) == pre {
        new_pre + v.skip(pre.len() as int)
    } else {
        v
    }
}

/// `n` with its prefix `pre` replaced by `new_pre` (`replace_prefix_spec`).
pub fn replace_prefix(n: &Arc<Name>, pre: &Arc<Name>, new_pre: &Arc<Name>) -> (r: Arc<Name>)
    ensures
        r@ == replace_prefix_spec(n@, pre@, new_pre@),
{
    let mut parts: Vec<Part> = Vec::new();
    let mut cur: &Name = n;
    loop
        invariant
            n@ == cur@ + parts_view(parts@),
            forall|k: int| cur@.len() < k <= n@.len() ==> n@.take(k) != pre@,
        decreases cur@.len(),
    {
        proof {
            assert(n@.take(cur@.len() as int) =~= cur@);
        }
        if cur.equal(pre) {
            let r = extend_by_parts(share(new_pre), parts);
            proof {
                assert(n@.skip(pre@.len() as int) =~= parts_view(parts@));
            }
            return r;
        }
        match cur {
            Name::Anonymous => {
                proof {
                    if pre@.len() <= n@.len() && n@.take(pre@.len() as int) == pre@ {
                        assert(pre@.len() > 0);
                    }
                }
                return share(n);
            },
            Name::Str { parent, part } => {
                let p = Part::Str(part.clone());
                proof {
                    assert(parts_view(parts@.push(p)) =~= seq![NameComp::Str(part@)] + parts_view(
                        parts@,
                    ));
                    assert(cur@ =~= parent@.push(NameComp::Str(part@)));
                    assert(parent@ + (seq![NameComp::Str(part@)] + parts_view(parts@)) =~= cur@
                        + parts_view(parts@));
                }
                parts.push(p);
                cur = parent;
            },
            Name::Num { parent, part } => {
                let p = Part::Num(part.clone());
                proof {
                    assert(parts_view(parts@.push(p)) =~= seq![NameComp::Num(part@)] + parts_view(
                        parts@,
                    ));
                    assert(cur@ =~= parent@.push(NameComp::Num(part@)));
                    assert(parent@ + (seq![NameComp::Num(part@)] + parts_view(parts@)) =~= cur@
                        + parts_view(parts@));
                }
                parts.push(p);
                cur = parent;
            },
        }
    }
}

/// `base` with `suffix` added to its last component when that is a
/// string, else with a new string component `suffix`.
pub open spec fn append_to_base(base: Seq<NameComp>, suffix: Seq<char>) -> Seq<NameComp> {
    if base.len() > 0 && base.last() is Str {
        base.drop_last().push(NameComp::Str(base.last()->Str_0 + suffix))
    } else {
        base.push(NameComp::Str(suffix))
    }
}

/// `suffix` appended after a name: on the base of a hygienic name, with
/// its macro scopes kept after it; on the name itself otherwise.
pub open spec fn append_after_spec(v: Seq<NameComp>, suffix: Seq<char>) -> Seq<NameComp> {
    if has_macro_scopes_spec(v) {
        let base = erase_macro_scopes_spec(v);
        replace_prefix_spec(v, base, append_to_base(base, suffix))
    } else {
        append_to_base(v, suffix)
    }
}

fn append_to_base_exec(base: &Arc<Name>, suffix: &str) -> (r: Arc<Name>)
    ensures
        r@ == append_to_base(base@, suffix@),
{
    match &**base {
        Name::Str { parent, part } => {
            let mut s = part.clone();
            s.append(suffix);
            let r = Arc::new(Name::Str { parent: share(parent), part: s });
            proof {
                assert(base@ == parent@.push(NameComp::Str(part@)));
                assert(base@.drop_last() =~= parent@);
            }
            r
        },
        _ => {
            proof {
                if base@.len() > 0 {
                    assert(base@.last() is Num);
                }
            }
            Name::mk_str(share(base), suffix)
        },
    }
}

/// The base of `n` (its macro scopes set aside) with `suffix` appended,
/// the scopes put back after it (`append_after_spec`).
fn modify_base(n: &Arc<Name>, suffix: &str) -> (r: Arc<Name>)
    ensures
        r@ == append_after_spec(n@, suffix@),
{
    if has_macro_scopes(n) {
        let base = erase_macro_scopes_aux(n);
        let new_base = append_to_base_exec(&base, suffix);
        replace_prefix(n, &base, &new_base)
    } else {
        append_to_base_exec(n, suffix)
    }
}

/// `n` with `suffix` appended after it (`append_after_spec`).
pub fn append_after_str(n: &Arc<Name>, suffix: &str) -> (r: Arc<Name>)
    ensures
        r@ == append_after_spec(n@, suffix@),
{
    modify_base(n, suffix)
}

/// `n` with `_` and the decimal digits of `idx` appended after it.
pub fn append_index_after(n: &Arc<Name>, idx: usize) -> (r: Arc<Name>)
    ensures
        r@ == append_after_spec(n@, seq!['_'] + nat_decimal(idx as nat)),
{
    let digits = Nat::from_u64(idx as u64).to_string();
    let mut s = String::new();
    s.append("_");
    s.append(digits.as_str());
    proof {
        reveal_strlit("_");
        assert(s@ =~= seq!['_'] + nat_decimal(idx as nat));
    }
    modify_base(n, s.as_str())
}

// ---------------------------------------------------------------------
// Expressions.
// ---------------------------------------------------------------------

/// Whether `bi` is the explicit binder annotation.
pub fn is_explicit_bi(bi: BinderInfo) -> (r: bool)
    ensures
        r == (bi == BinderInfo::Default),
{
    match bi {
        BinderInfo::Default => true,
        _ => false,
    }
}

/// The name, domain, body and annotation of a `Π`.
pub fn peel_forall(e: &Arc<Expr>) -> (r: Option<(Arc<Name>, Arc<Expr>, Arc<Expr>, BinderInfo)>)
    ensures
        match e@ {
            SExpr::ForallE(n, t, b, bi) => r matches Some(p) && p.0@ == n && p.1@ == *t && p.2@
                == *b && p.3 == bi,
            _ => r is None,
        },
{
    match e.node() {
        ExprNode::ForallE { binder_name, binder_type, body, binder_info } => Some(
            (share(binder_name), share(binder_type), share(body), *binder_info),
        ),
        _ => None,
    }
}

/// Whether the bound variable `#i`, counted from the root of `e`, occurs
/// loose in `e`.
pub open spec fn bvar_occurs(e: SExpr, i: nat) -> bool
    decreases e,
{
    match e {
        SExpr::BVar(k) => k == i,
        SExpr::App(f, a) => bvar_occurs(*f, i) || bvar_occurs(*a, i),
        SExpr::Lam(_, t, b, _) => bvar_occurs(*t, i) || bvar_occurs(*b, i + 1),
        SExpr::ForallE(_, t, b, _) => bvar_occurs(*t, i) || bvar_occurs(*b, i + 1),
        SExpr::LetE(_, t, v, b, _) => bvar_occurs(*t, i) || bvar_occurs(*v, i) || bvar_occurs(
            *b,
            i + 1,
        ),
        SExpr::MData(_, x) => bvar_occurs(*x, i),
        SExpr::Proj(_, _, x) => bvar_occurs(*x, i),
        _ => false,
    }
}

/// No bound variable at or past the loose range occurs.
pub proof fn lemma_no_occurrence_past_range(e: SExpr, i: nat)
    requires
        crate::expr_laws::loose_range(e) <= i,
    ensures
        !bvar_occurs(e, i),
    decreases e,
{
    match e {
        SExpr::App(f, a) => {
            lemma_no_occurrence_past_range(*f, i);
            lemma_no_occurrence_past_range(*a, i);
        },
        SExpr::Lam(_, t, b, _) => {
            lemma_no_occurrence_past_range(*t, i);
            lemma_no_occurrence_past_range(*b, i + 1);
        },
        SExpr::ForallE(_, t, b, _) => {
            lemma_no_occurrence_past_range(*t, i);
            lemma_no_occurrence_past_range(*b, i + 1);
        },
        SExpr::LetE(_, t, v, b, _) => {
            lemma_no_occurrence_past_range(*t, i);
            lemma_no_occurrence_past_range(*v, i);
            lemma_no_occurrence_past_range(*b, i + 1);
        },
        SExpr::MData(_, x) => {
            lemma_no_occurrence_past_range(*x, i);
        },
        SExpr::Proj(_, _, x) => {
            lemma_no_occurrence_past_range(*x, i);
        },
        _ => {},
    }
}

/// Whether the walk of `has_loose_bvar` over `e` from index `i` fits: the
/// guard's cap, and indices within 64 bits.
pub open spec fn occurs_fits(g: RecGuard, e: SExpr, i: nat) -> bool {
    crate::subst::tree_fits(g, e) && i + crate::subst::tree_height(e) <= u64::MAX
}

/// Whether the bound variable `#i` occurs loose in `e` (`bvar_occurs`).
/// The walk runs under the guard; a binder past index `u64::MAX` is
/// refused as too deep.
pub fn has_loose_bvar(e: &Arc<Expr>, i: u64, g: &mut RecGuard) -> (r: Result<bool, KernelError>)
    ensures
        *final(g) == *old(g),
        r matches Ok(x) ==> x == bvar_occurs(e@, i as nat),
        r matches Err(err) ==> err is DeepRecursion,
        occurs_fits(*old(g), e@, i as nat) ==> r is Ok,
    decreases e@,
{
    match e.data().loose_bvar_range_exact() {
        Some(range) => {
            if i >= range as u64 {
                proof {
                    crate::expr_laws::lemma_range_exact(e@);
                    lemma_no_occurrence_past_range(e@, i as nat);
                }
                return Ok(false);
            }
        },
        None => {},
    }
    match e.node() {
        ExprNode::BVar { idx } => Ok(idx.beq(&Nat::from_u64(i))),
        ExprNode::App { f, arg } => {
            let (f, arg) = (share(f), share(arg));
            let body = move |g2: RecGuard| -> (r: Result<bool, KernelError>)
                    ensures
                        r matches Ok(x) ==> x == (bvar_occurs(f@, i as nat) || bvar_occurs(
                            arg@,
                            i as nat,
                        )),
                        r matches Err(err) ==> err is DeepRecursion,
                        occurs_fits(g2, f@, i as nat) && occurs_fits(g2, arg@, i as nat) ==> r is Ok,
                    {
                        let mut g3 = g2;
                        match has_loose_bvar(&f, i, &mut g3) {
                            Err(err) => Err(err),
                            Ok(true) => Ok(true),
                            Ok(false) => has_loose_bvar(&arg, i, &mut g3),
                        }
                    };
            g.enter(body)
        },
        ExprNode::Lam { binder_type, body, .. } | ExprNode::ForallE { binder_type, body, .. } => {
            if i == u64::MAX {
                return Err(KernelError::DeepRecursion);
            }
            let (t, b) = (share(binder_type), share(body));
            let step = move |g2: RecGuard| -> (r: Result<bool, KernelError>)
                    requires
                        i < u64::MAX,
                    ensures
                        r matches Ok(x) ==> x == (bvar_occurs(t@, i as nat) || bvar_occurs(
                            b@,
                            (i + 1) as nat,
                        )),
                        r matches Err(err) ==> err is DeepRecursion,
                        occurs_fits(g2, t@, i as nat) && occurs_fits(g2, b@, (i + 1) as nat) ==> r is Ok,
                    {
                        let mut g3 = g2;
                        match has_loose_bvar(&t, i, &mut g3) {
                            Err(err) => Err(err),
                            Ok(true) => Ok(true),
                            Ok(false) => has_loose_bvar(&b, i + 1, &mut g3),
                        }
                    };
            g.enter(step)
        },
        ExprNode::LetE { ty, value, body, .. } => {
            if i == u64::MAX {
                return Err(KernelError::DeepRecursion);
            }
            let (t, v, b) = (share(ty), share(value), share(body));
            let step = move |g2: RecGuard| -> (r: Result<bool, KernelError>)
                    requires
                        i < u64::MAX,
                    ensures
                        r matches Ok(x) ==> x == (bvar_occurs(t@, i as nat) || bvar_occurs(
                            v@,
                            i as nat,
                        ) || bvar_occurs(b@, (i + 1) as nat)),
                        r matches Err(err) ==> err is DeepRecursion,
                        occurs_fits(g2, t@, i as nat) && occurs_fits(g2, v@, i as nat)
                            && occurs_fits(g2, b@, (i + 1) as nat) ==> r is Ok,
                    {
                        let mut g3 = g2;
                        match has_loose_bvar(&t, i, &mut g3) {
                            Err(err) => Err(err),
                            Ok(true) => Ok(true),
                            Ok(false) => match has_loose_bvar(&v, i, &mut g3) {
                                Err(err) => Err(err),
                                Ok(true) => Ok(true),
                                Ok(false) => has_loose_bvar(&b, i + 1, &mut g3),
                            },
                        }
                    };
            g.enter(step)
        },
        ExprNode::MData { expr, .. } | ExprNode::Proj { structure: expr, .. } => {
            let x = share(expr);
            let step = move |g2: RecGuard| -> (r: Result<bool, KernelError>)
                    ensures
                        r matches Ok(y) ==> y == bvar_occurs(x@, i as nat),
                        r matches Err(err) ==> err is DeepRecursion,
                        occurs_fits(g2, x@, i as nat) ==> r is Ok,
                    {
                        let mut g3 = g2;
                        has_loose_bvar(&x, i, &mut g3)
                    };
            g.enter(step)
        },
        _ => Ok(false),
    }
}

/// Whether the variable of a `Π` binder of `b` occurs in the domain of a
/// later binder: walking the `Π` spine from index `vidx`, a binder whose
/// variable occurs in its domain counts when the binder is explicit or
/// (transitively) when its own variable occurs in a later domain; at the
/// end of the spine, when not `strict`, an occurrence in the body counts
/// too.
pub open spec fn loose_in_domain(b: SExpr, vidx: nat, strict: bool) -> bool
    decreases b,
{
    match b {
        SExpr::ForallE(_, t, body, bi) => if bvar_occurs(*t, vidx) && (bi == BinderInfo::Default
            || loose_in_domain(*body, 0, strict)) {
            true
        } else {
            loose_in_domain(*body, vidx + 1, strict)
        },
        _ => if strict {
            false
        } else {
            bvar_occurs(b, vidx)
        },
    }
}

/// `loose_in_domain` of `b`. The spine is walked by a loop; each
/// occurrence search and each transitive search runs under the guard.
pub fn has_loose_bvars_in_domain(b: &Arc<Expr>, vidx: u64, strict: bool, g: &mut RecGuard) -> (r:
    Result<bool, KernelError>)
    ensures
        *final(g) == *old(g),
        r matches Ok(x) ==> x == loose_in_domain(b@, vidx as nat, strict),
        r matches Err(err) ==> err is DeepRecursion,
        occurs_fits(*old(g), b@, vidx as nat) ==> r is Ok,
    decreases crate::subst::tree_height(b@),
{
    let ghost h0 = crate::subst::tree_height(b@);
    let mut cur = share(b);
    let mut v: u64 = vidx;
    loop
        invariant
            *g == *old(g),
            loose_in_domain(b@, vidx as nat, strict) == loose_in_domain(cur@, v as nat, strict),
            crate::subst::tree_height(cur@) <= h0,
            h0 == crate::subst::tree_height(b@),
            v + crate::subst::tree_height(cur@) <= vidx + h0,
        decreases crate::subst::tree_height(cur@),
    {
        match cur.node() {
            ExprNode::ForallE { binder_type, body, binder_info, .. } => {
                let bt = share(binder_type);
                let bd = share(body);
                let bi = *binder_info;
                let occ = has_loose_bvar(&bt, v, g)?;
                if occ {
                    if is_explicit_bi(bi) {
                        return Ok(true);
                    }
                    let bd2 = share(&bd);
                    let inner = move |g2: RecGuard| -> (r: Result<bool, KernelError>)
                            requires
                                crate::subst::tree_height(bd2@) < h0,
                            ensures
                                r matches Ok(x) ==> x == loose_in_domain(bd2@, 0, strict),
                                r matches Err(err) ==> err is DeepRecursion,
                                occurs_fits(g2, bd2@, 0) ==> r is Ok,
                            {
                                let mut g3 = g2;
                                has_loose_bvars_in_domain(&bd2, 0, strict, &mut g3)
                            };
                    if g.enter(inner)? {
                        return Ok(true);
                    }
                }
                if v == u64::MAX {
                    return Err(KernelError::DeepRecursion);
                }
                cur = bd;
                v = v + 1;
            },
            _ => {
                if strict {
                    return Ok(false);
                }
                return has_loose_bvar(&cur, v, g);
            },
        }
    }
}

/// `Π` binders around a body, outermost first.
pub open spec fn pis(bs: Seq<(Seq<NameComp>, SExpr, BinderInfo)>, body: SExpr) -> SExpr
    decreases bs.len(),
{
    if bs.len() == 0 {
        body
    } else {
        SExpr::ForallE(bs[0].0, Box::new(bs[0].1), Box::new(pis(bs.drop_first(), body)), bs[0].2)
    }
}

proof fn lemma_pis_push(bs: Seq<(Seq<NameComp>, SExpr, BinderInfo)>, x: (Seq<NameComp>, SExpr, BinderInfo), body: SExpr)
    ensures
        pis(bs.push(x), body) == pis(bs, SExpr::ForallE(x.0, Box::new(x.1), Box::new(body), x.2)),
    decreases bs.len(),
{
    if bs.len() > 0 {
        assert(bs.push(x).drop_first() =~= bs.drop_first().push(x));
        assert(bs.push(x)[0] == bs[0]);
        lemma_pis_push(bs.drop_first(), x, body);
    } else {
        assert(bs.push(x).drop_first() =~= bs);
        reveal_with_fuel(pis, 2);
    }
}

/// A suffix of the binders around the same body is no taller.
proof fn lemma_pis_suffix_height(bs: Seq<(Seq<NameComp>, SExpr, BinderInfo)>, body: SExpr, k: int)
    requires
        0 <= k <= bs.len(),
    ensures
        crate::subst::tree_height(pis(bs.skip(k), body)) <= crate::subst::tree_height(pis(bs, body)),
    decreases k,
{
    if k == 0 {
        assert(bs.skip(0) =~= bs);
    } else {
        assert(bs.skip(k) =~= bs.drop_first().skip(k - 1));
        lemma_pis_suffix_height(bs.drop_first(), body, k - 1);
    }
}

/// A type with each explicit binder made implicit when its variable
/// occurs in the domain of a later binder (`loose_in_domain`, strictly),
/// the later binders decided first.
pub open spec fn infer_implicit_spec(e: SExpr) -> SExpr
    decreases e,
{
    match e {
        SExpr::ForallE(n, t, b, bi) => {
            let b2 = infer_implicit_spec(*b);
            let bi2 = if bi != BinderInfo::Default {
                bi
            } else if loose_in_domain(b2, 0, true) {
                BinderInfo::Implicit
            } else {
                bi
            };
            SExpr::ForallE(n, t, Box::new(b2), bi2)
        },
        _ => e,
    }
}

/// Marking binders implicit keeps the height.
proof fn lemma_infer_implicit_height(e: SExpr)
    ensures
        crate::subst::tree_height(infer_implicit_spec(e)) == crate::subst::tree_height(e),
    decreases e,
{
    if let SExpr::ForallE(_, _, b, _) = e {
        lemma_infer_implicit_height(*b);
    }
}

spec fn binders_view(bs: Seq<(Arc<Name>, Arc<Expr>, BinderInfo)>) -> Seq<
    (Seq<NameComp>, SExpr, BinderInfo),
> {
    Seq::new(bs.len(), |i: int| (bs[i].0@, bs[i].1@, bs[i].2))
}

/// `infer_implicit_spec` of `t`. The spine is collected by a loop and
/// rebuilt from the inside out.
pub fn infer_implicit(t: &Arc<Expr>, g: &mut RecGuard) -> (r: Result<Arc<Expr>, KernelError>)
    ensures
        *final(g) == *old(g),
        r matches Ok(x) ==> x@ == infer_implicit_spec(t@),
        r matches Err(err) ==> err is DeepRecursion,
        occurs_fits(*old(g), t@, 0) ==> r is Ok,
{
    let mut binders: Vec<(Arc<Name>, Arc<Expr>, BinderInfo)> = Vec::new();
    let mut cur = share(t);
    proof {
        assert(binders_view(binders@) =~= Seq::<(Seq<NameComp>, SExpr, BinderInfo)>::empty());
    }
    loop
        invariant
            t@ == pis(binders_view(binders@), cur@),
        ensures
            t@ == pis(binders_view(binders@), cur@),
            !(cur@ is ForallE),
        decreases cur@,
    {
        match peel_forall(&cur) {
            Some((bn, bt, body, bi)) => {
                proof {
                    let x = (bn@, bt@, bi);
                    assert(binders_view(binders@.push((bn, bt, bi))) =~= binders_view(binders@).push(x));
                    lemma_pis_push(binders_view(binders@), x, body@);
                }
                binders.push((bn, bt, bi));
                cur = body;
            },
            None => {
                break ;
            },
        }
    }
    let ghost bv = binders_view(binders@);
    let ghost core = cur@;
    let n = binders.len();
    let mut result = cur;
    let mut j: usize = n;
    proof {
        assert(bv.skip(n as int) =~= Seq::<(Seq<NameComp>, SExpr, BinderInfo)>::empty());
    }
    while j > 0
        invariant
            j <= n == binders@.len(),
            bv == binders_view(binders@),
            t@ == pis(bv, core),
            !(core is ForallE),
            *g == *old(g),
            result@ == infer_implicit_spec(pis(bv.skip(j as int), core)),
        decreases j,
    {
        let (bn, bt, bi) = (share(&binders[j - 1].0), share(&binders[j - 1].1), binders[j - 1].2);
        proof {
            assert(bv.skip(j - 1).drop_first() =~= bv.skip(j as int));
            assert(bv.skip(j - 1)[0] == bv[j - 1]);
            lemma_pis_suffix_height(bv, core, j as int);
            lemma_infer_implicit_height(pis(bv.skip(j as int), core));
        }
        let new_bi = if !is_explicit_bi(bi) {
            bi
        } else if has_loose_bvars_in_domain(&result, 0, true, g)? {
            BinderInfo::Implicit
        } else {
            bi
        };
        result = Expr::forall_e(bn, bt, result, new_bi);
        j = j - 1;
    }
    proof {
        assert(bv.skip(0) =~= bv);
    }
    Ok(result)
}

/// Whether a constant named by one of `ns` occurs in `e`.
pub open spec fn has_const_in(e: SExpr, ns: Seq<Seq<NameComp>>) -> bool
    decreases e,
{
    match e {
        SExpr::Const(n, _) => ns.contains(n),
        SExpr::App(f, a) => has_const_in(*f, ns) || has_const_in(*a, ns),
        SExpr::Lam(_, t, b, _) => has_const_in(*t, ns) || has_const_in(*b, ns),
        SExpr::ForallE(_, t, b, _) => has_const_in(*t, ns) || has_const_in(*b, ns),
        SExpr::LetE(_, t, v, b, _) => has_const_in(*t, ns) || has_const_in(*v, ns) || has_const_in(
            *b,
            ns,
        ),
        SExpr::MData(_, x) => has_const_in(*x, ns),
        SExpr::Proj(_, _, x) => has_const_in(*x, ns),
        _ => false,
    }
}

/// Whether a constant named by one of `names` (the types being declared)
/// occurs in `e` (`has_const_in`). The walk runs under the guard.
pub fn expr_has_ind_occ(e: &Arc<Expr>, names: &[Arc<Name>], g: &mut RecGuard) -> (r: Result<
    bool,
    KernelError,
>)
    ensures
        *final(g) == *old(g),
        r matches Ok(x) ==> x == has_const_in(e@, names_view(names@)),
        r matches Err(err) ==> err is DeepRecursion,
        crate::subst::tree_fits(*old(g), e@) ==> r is Ok,
    decreases crate::subst::tree_height(e@),
{
    match e.node() {
        ExprNode::Const { name, .. } => Ok(crate::tc::name_in(name, names)),
        ExprNode::App { f, arg } => {
            let (f, arg) = (share(f), share(arg));
            let step = move |g2: RecGuard| -> (r: Result<bool, KernelError>)
                    ensures
                        r matches Ok(x) ==> x == (has_const_in(f@, names_view(names@))
                            || has_const_in(arg@, names_view(names@))),
                        r matches Err(err) ==> err is DeepRecursion,
                        crate::subst::tree_fits(g2, f@) && crate::subst::tree_fits(g2, arg@) ==> r is Ok,
                    {
                        let mut g3 = g2;
                        match expr_has_ind_occ(&f, names, &mut g3) {
                            Err(err) => Err(err),
                            Ok(true) => Ok(true),
                            Ok(false) => expr_has_ind_occ(&arg, names, &mut g3),
                        }
                    };
            g.enter(step)
        },
        ExprNode::Lam { binder_type, body, .. } | ExprNode::ForallE { binder_type, body, .. } => {
            let (t, b) = (share(binder_type), share(body));
            let step = move |g2: RecGuard| -> (r: Result<bool, KernelError>)
                    ensures
                        r matches Ok(x) ==> x == (has_const_in(t@, names_view(names@))
                            || has_const_in(b@, names_view(names@))),
                        r matches Err(err) ==> err is DeepRecursion,
                        crate::subst::tree_fits(g2, t@) && crate::subst::tree_fits(g2, b@) ==> r is Ok,
                    {
                        let mut g3 = g2;
                        match expr_has_ind_occ(&t, names, &mut g3) {
                            Err(err) => Err(err),
                            Ok(true) => Ok(true),
                            Ok(false) => expr_has_ind_occ(&b, names, &mut g3),
                        }
                    };
            g.enter(step)
        },
        ExprNode::LetE { ty, value, body, .. } => {
            let (t, v, b) = (share(ty), share(value), share(body));
            let step = move |g2: RecGuard| -> (r: Result<bool, KernelError>)
                    ensures
                        r matches Ok(x) ==> x == (has_const_in(t@, names_view(names@))
                            || has_const_in(v@, names_view(names@)) || has_const_in(
                            b@,
                            names_view(names@),
                        )),
                        r matches Err(err) ==> err is DeepRecursion,
                        crate::subst::tree_fits(g2, t@) && crate::subst::tree_fits(g2, v@)
                            && crate::subst::tree_fits(g2, b@) ==> r is Ok,
                    {
                        let mut g3 = g2;
                        match expr_has_ind_occ(&t, names, &mut g3) {
                            Err(err) => Err(err),
                            Ok(true) => Ok(true),
                            Ok(false) => match expr_has_ind_occ(&v, names, &mut g3) {
                                Err(err) => Err(err),
                                Ok(true) => Ok(true),
                                Ok(false) => expr_has_ind_occ(&b, names, &mut g3),
                            },
                        }
                    };
            g.enter(step)
        },
        ExprNode::MData { expr, .. } | ExprNode::Proj { structure: expr, .. } => {
            let x = share(expr);
            let step = move |g2: RecGuard| -> (r: Result<bool, KernelError>)
                    ensures
                        r matches Ok(y) ==> y == has_const_in(x@, names_view(names@)),
                        r matches Err(err) ==> err is DeepRecursion,
                        crate::subst::tree_fits(g2, x@) ==> r is Ok,
                    {
                        let mut g3 = g2;
                        expr_has_ind_occ(&x, names, &mut g3)
                    };
            g.enter(step)
        },
        _ => Ok(false),
    }
}

/// Whether a constant named by one of `names` (the block's current type
/// names) occurs in `e`: the same search as `expr_has_ind_occ`.
pub fn expr_contains_new_type(e: &Arc<Expr>, names: &[Arc<Name>], g: &mut RecGuard) -> (r: Result<
    bool,
    KernelError,
>)
    ensures
        *final(g) == *old(g),
        r matches Ok(x) ==> x == has_const_in(e@, names_view(names@)),
        r matches Err(err) ==> err is DeepRecursion,
        crate::subst::tree_fits(*old(g), e@) ==> r is Ok,
{
    expr_has_ind_occ(e, names, g)
}

/// The name and universe levels of the head constant of `e`.
pub fn head_const(e: &Arc<Expr>) -> (r: Option<(Arc<Name>, Vec<Arc<Level>>)>)
    ensures
        match app_fn(e@) {
            SExpr::Const(n, ls) => r matches Some(p) && p.0@ == n && levels_view(p.1@) == ls,
            _ => r is None,
        },
{
    match Expr::get_app_fn(e).node() {
        ExprNode::Const { name, .. } => Some(
            (share(name), crate::tc::const_levels_of_head(e)),
        ),
        _ => None,
    }
}

/// The number of arguments with which a type annotation wraps a type:
/// two for `optParam` and `autoParam`, one for `outParam` and
/// `semiOutParam`, none for anything else.
pub open spec fn annotation_arity(n: Seq<NameComp>) -> nat {
    if n == seq![NameComp::Str("optParam"@)] || n == seq![NameComp::Str("autoParam"@)] {
        2
    } else if n == seq![NameComp::Str("outParam"@)] || n == seq![NameComp::Str("semiOutParam"@)] {
        1
    } else {
        0
    }
}

/// Whether `e` is a type annotation applied to exactly its arguments.
pub open spec fn is_annotation(e: SExpr) -> bool {
    app_fn(e) matches SExpr::Const(n, _) && annotation_arity(n) > 0 && app_args(e).len()
        == annotation_arity(n)
}

/// Each argument of an application spine is lower than the spine.
pub proof fn lemma_arg_height(e: SExpr, k: int)
    requires
        0 <= k < app_args(e).len(),
    ensures
        crate::subst::tree_height(app_args(e)[k]) < crate::subst::tree_height(e),
    decreases e,
{
    if let SExpr::App(f, a) = e {
        if k < app_args(*f).len() {
            lemma_arg_height(*f, k);
        }
    }
}

/// `e` with its type annotations removed: an annotation gives way to the
/// type it wraps, its first argument, until none is left.
pub open spec fn consume_annotations_spec(e: SExpr) -> SExpr
    decreases crate::subst::tree_height(e),
{
    if is_annotation(e) {
        proof {
            lemma_arg_height(e, 0);
        }
        consume_annotations_spec(app_args(e)[0])
    } else {
        e
    }
}

/// Whether `n` is the one-component name `s`.
fn is_simple_name(n: &Name, s: &str) -> (r: bool)
    ensures
        r == (n@ == seq![NameComp::Str(s@)]),
{
    let m = mk_simple_name(s);
    n.equal(&m)
}

/// `e` with its type annotations removed (`consume_annotations_spec`).
/// A loop over strict subterms.
pub fn consume_type_annotations(e: &Arc<Expr>) -> (r: Arc<Expr>)
    ensures
        r@ == consume_annotations_spec(e@),
{
    let mut cur = share(e);
    loop
        invariant
            consume_annotations_spec(e@) == consume_annotations_spec(cur@),
        decreases crate::subst::tree_height(cur@),
    {
        let arity: usize = match Expr::get_app_fn(&cur).const_name() {
            Some(n) => {
                proof {
                    reveal_strlit("optParam");
                    reveal_strlit("autoParam");
                    reveal_strlit("outParam");
                    reveal_strlit("semiOutParam");
                }
                if is_simple_name(n, "optParam") || is_simple_name(n, "autoParam") {
                    2
                } else if is_simple_name(n, "outParam") || is_simple_name(n, "semiOutParam") {
                    1
                } else {
                    0
                }
            },
            None => 0,
        };
        let args = Expr::get_app_args(&cur);
        if arity == 0 || args.len() != arity {
            return cur;
        }
        proof {
            assert(exprs_view_at(args@, 0) == app_args(cur@)[0]);
            lemma_arg_height(cur@, 0);
        }
        cur = share(&args[0]);
    }
}

spec fn exprs_view_at(s: Seq<Arc<Expr>>, i: int) -> SExpr {
    crate::expr::exprs_view(s)[i]
}

// ---------------------------------------------------------------------
// Universe comparison.
// ---------------------------------------------------------------------

/// `l1` is at least `l2` under every assignment of the universe
/// parameters and metavariables.
pub open spec fn level_geq(l1: SLevel, l2: SLevel) -> bool {
    forall|ps: spec_fn(Seq<NameComp>) -> nat, ms: spec_fn(Seq<NameComp>) -> nat|
        #[trigger] level_eval(l1, ps, ms) >= level_eval(l2, ps, ms)
}

/// Whether `a` is at least `b` under every assignment, as far as comparing
/// their normal forms by shape shows it: `Ok(true)` is a proof, `Ok(false)`
/// only says that none was found. The comparison runs under the guard.
pub fn is_geq(a: &Arc<Level>, b: &Arc<Level>, g: &mut RecGuard) -> (r: Result<bool, KernelError>)
    ensures
        *final(g) == *old(g),
        r matches Err(e) ==> e is DeepRecursion,
        r == Ok::<bool, KernelError>(true) && offsets_exact(a@) && offsets_exact(b@) ==> level_geq(
            a@,
            b@,
        ),
        r matches Ok(x) ==> ((a@ == b@ || b@ is Zero) ==> x),
    decreases MAX_REC_DEPTH - old(g).depth(), 0nat,
{
    let d = g.current_depth();
    let (a2, b2) = (share(a), share(b));
    let step = move |g2: RecGuard| -> (r: Result<bool, KernelError>)
            requires
                g2.depth() == d + 1,
            ensures
                r matches Err(e) ==> e is DeepRecursion,
                r == Ok::<bool, KernelError>(true) && offsets_exact(a2@) && offsets_exact(b2@)
                    ==> level_geq(a2@, b2@),
                r matches Ok(x) ==> ((a2@ == b2@ || b2@ is Zero) ==> x),
            {
                let mut g3 = g2;
                let _ = g3.current_depth();
                let na = Level::normalize(&a2, &mut g3)?;
                let nb = Level::normalize(&b2, &mut g3)?;
                let r = is_geq_core(&na, &nb, &mut g3);
                proof {
                    if r == Ok::<bool, KernelError>(true) && offsets_exact(a2@) && offsets_exact(
                        b2@,
                    ) {
                        assert forall|ps: spec_fn(Seq<NameComp>) -> nat, ms: spec_fn(
                            Seq<NameComp>,
                        ) -> nat| #[trigger]
                            level_eval(a2@, ps, ms) >= level_eval(b2@, ps, ms) by {
                            lemma_normalize_eval(a2@, ps, ms);
                            lemma_normalize_eval(b2@, ps, ms);
                            assert(level_eval(na@, ps, ms) >= level_eval(nb@, ps, ms));
                        }
                    }
                }
                r
            };
    g.enter(step)
}

/// The shape comparison of two normal forms behind `is_geq`.
fn is_geq_core(l1: &Arc<Level>, l2: &Arc<Level>, g: &mut RecGuard) -> (r: Result<
    bool,
    KernelError,
>)
    ensures
        *final(g) == *old(g),
        r matches Err(e) ==> e is DeepRecursion,
        r == Ok::<bool, KernelError>(true) && offsets_exact(l1@) && offsets_exact(l2@)
            ==> level_geq(l1@, l2@),
        r matches Ok(x) ==> ((l1@ == l2@ || l2@ is Zero) ==> x),
    decreases MAX_REC_DEPTH - old(g).depth(), 1nat,
{
    let _ = g.current_depth();
    if Level::structural_eq(l1, l2, g)? || l2.is_zero() {
        return Ok(true);
    }
    if let Level::Max(a, b) = &**l2 {
        let x = is_geq(l1, a, g)?;
        if !x {
            return Ok(false);
        }
        let y = is_geq(l1, b, g)?;
        proof {
            if y && offsets_exact(l1@) && offsets_exact(l2@) {
                assert forall|ps: spec_fn(Seq<NameComp>) -> nat, ms: spec_fn(Seq<NameComp>) -> nat|
                    #[trigger] level_eval(l1@, ps, ms) >= level_eval(l2@, ps, ms) by {
                    assert(level_eval(l1@, ps, ms) >= level_eval(a@, ps, ms));
                    assert(level_eval(l1@, ps, ms) >= level_eval(b@, ps, ms));
                }
            }
        }
        return Ok(y);
    }
    if let Level::Max(a, b) = &**l1 {
        let x = is_geq(a, l2, g)?;
        let y = if x {
            true
        } else {
            is_geq(b, l2, g)?
        };
        if y {
            proof {
                if offsets_exact(l1@) && offsets_exact(l2@) {
                    assert forall|ps: spec_fn(Seq<NameComp>) -> nat, ms: spec_fn(
                        Seq<NameComp>,
                    ) -> nat| #[trigger]
                        level_eval(l1@, ps, ms) >= level_eval(l2@, ps, ms) by {
                        if x {
                            assert(level_eval(a@, ps, ms) >= level_eval(l2@, ps, ms));
                        } else {
                            assert(level_eval(b@, ps, ms) >= level_eval(l2@, ps, ms));
                        }
                    }
                }
            }
            return Ok(true);
        }
    }
    if let Level::IMax(a, b) = &**l2 {
        let x = is_geq(l1, a, g)?;
        if !x {
            return Ok(false);
        }
        let y = is_geq(l1, b, g)?;
        proof {
            if y && offsets_exact(l1@) && offsets_exact(l2@) {
                assert forall|ps: spec_fn(Seq<NameComp>) -> nat, ms: spec_fn(Seq<NameComp>) -> nat|
                    #[trigger] level_eval(l1@, ps, ms) >= level_eval(l2@, ps, ms) by {
                    assert(level_eval(l1@, ps, ms) >= level_eval(a@, ps, ms));
                    assert(level_eval(l1@, ps, ms) >= level_eval(b@, ps, ms));
                }
            }
        }
        return Ok(y);
    }
    if let Level::IMax(_, b) = &**l1 {
        let y = is_geq(b, l2, g)?;
        proof {
            if y && offsets_exact(l1@) && offsets_exact(l2@) {
                assert forall|ps: spec_fn(Seq<NameComp>) -> nat, ms: spec_fn(Seq<NameComp>) -> nat|
                    #[trigger] level_eval(l1@, ps, ms) >= level_eval(l2@, ps, ms) by {
                    assert(level_eval(b@, ps, ms) >= level_eval(l2@, ps, ms));
                }
            }
        }
        return Ok(y);
    }
    let (b1, k1) = Level::to_offset(l1);
    let (b2, k2) = Level::to_offset(l2);
    proof {
        lemma_offset_split(l1@, |n: Seq<NameComp>| 0nat, |n: Seq<NameComp>| 0nat);
        lemma_offset_split(l2@, |n: Seq<NameComp>| 0nat, |n: Seq<NameComp>| 0nat);
        if offsets_exact(l1@) {
            lemma_offset_exact(l1@);
        }
        if offsets_exact(l2@) {
            lemma_offset_exact(l2@);
        }
    }
    if Level::structural_eq(b1, b2, g)? || b2.is_zero() {
        proof {
            if k1 >= k2 && offsets_exact(l1@) && offsets_exact(l2@) {
                assert forall|ps: spec_fn(Seq<NameComp>) -> nat, ms: spec_fn(Seq<NameComp>) -> nat|
                    #[trigger] level_eval(l1@, ps, ms) >= level_eval(l2@, ps, ms) by {
                    lemma_offset_split(l1@, ps, ms);
                    lemma_offset_split(l2@, ps, ms);
                }
            }
        }
        return Ok(k1 >= k2);
    }
    if k1 == k2 && k1 > 0 {
        let y = is_geq(b1, b2, g)?;
        proof {
            if y && offsets_exact(l1@) && offsets_exact(l2@) {
                assert forall|ps: spec_fn(Seq<NameComp>) -> nat, ms: spec_fn(Seq<NameComp>) -> nat|
                    #[trigger] level_eval(l1@, ps, ms) >= level_eval(l2@, ps, ms) by {
                    lemma_offset_split(l1@, ps, ms);
                    lemma_offset_split(l2@, ps, ms);
                    assert(level_eval(b1@, ps, ms) >= level_eval(b2@, ps, ms));
                }
            }
        }
        return Ok(y);
    }
    Ok(false)
}

} // verus!
