//! Decision helpers of the type checker: three-valued results, the order
//! in which lazy delta reduction unfolds definitions, what a constant
//! offers to reduction, the constructor forms of literals, recursor rule
//! and major-premise lookup, undefined universe parameters and cheap beta
//! reduction.
use crate::decl::{ConstantInfo, DefinitionSafety, RecursorRule, ReducibilityHints};
use crate::env::{lookup, Environment};
use crate::error::KernelError;
use crate::expr::{
    app_args, app_fn, expr_fields, exprs_view, lemma_expr_view, lemma_node_view, mk_spine,
    node_view, Expr, ExprNode, Literal, SExpr, SLiteral,
};
use crate::guard::{RecGuard, MAX_REC_DEPTH};
use crate::level::{level_fits, level_height, levels_view, names_view, Level, SLevel};
use crate::name::{Name, NameComp};
use crate::num::Nat;
use crate::quot::{sapp, sname, sname2};
use crate::shared::share;
use std::sync::Arc;
use vstd::prelude::*;

verus! {

broadcast use {lemma_expr_view, lemma_node_view};

/// Three-valued result; `Undef` means "could not decide".
#[derive(Debug, Clone, Copy, PartialEq, Eq, Structural)]
pub enum Lbool {
    False,
    True,
    Undef,
}

/// `True` or `False` as `b` says.
pub fn to_lbool(b: bool) -> (r: Lbool)
    ensures
        r == (if b {
            Lbool::True
        } else {
            Lbool::False
        }),
{
    if b {
        Lbool::True
    } else {
        Lbool::False
    }
}

/// Which side lazy delta reduction unfolds first, as a sign: `-1` for the
/// first hint, `1` for the second, `0` for both. A higher `Regular`
/// height unfolds first; `Abbrev` before anything else; `Opaque` after
/// anything else.
pub open spec fn spec_compare_hints(h1: ReducibilityHints, h2: ReducibilityHints) -> i32 {
    match (h1, h2) {
        (ReducibilityHints::Regular(a), ReducibilityHints::Regular(b)) => {
            if a == b {
                0i32
            } else if a > b {
                -1i32
            } else {
                1i32
            }
        },
        _ => {
            if h1 == h2 {
                0i32
            } else if h1 is Opaque {
                1i32
            } else if h2 is Opaque {
                -1i32
            } else if h1 is Abbrev {
                -1i32
            } else {
                1i32
            }
        },
    }
}

/// The unfolding order of two definitions' hints (`spec_compare_hints`).
pub fn compare_hints(h1: ReducibilityHints, h2: ReducibilityHints) -> (r: i32)
    ensures
        r == spec_compare_hints(h1, h2),
{
    match (h1, h2) {
        (ReducibilityHints::Regular(a), ReducibilityHints::Regular(b)) => {
            if a == b {
                0
            } else if a > b {
                -1
            } else {
                1
            }
        },
        _ => {
            if h1 == h2 {
                0
            } else {
                match (h1, h2) {
                    (ReducibilityHints::Opaque, _) => 1,
                    (_, ReducibilityHints::Opaque) => -1,
                    (ReducibilityHints::Abbrev, _) => -1,
                    _ => 1,
                }
            }
        },
    }
}

impl ReducibilityHints {
    /// Whether this is a `Regular` height.
    pub fn is_regular_hint(self) -> (r: bool)
        ensures
            r == (self is Regular),
    {
        match self {
            ReducibilityHints::Regular(_) => true,
            _ => false,
        }
    }
}

/// The unfolding order is antisymmetric: swapping the hints flips the
/// sign.
pub proof fn law_compare_hints_antisymmetric(h1: ReducibilityHints, h2: ReducibilityHints)
    ensures
        spec_compare_hints(h2, h1) == -spec_compare_hints(h1, h2),
{
}

/// Equal hints tie.
pub proof fn law_compare_hints_reflexive(h: ReducibilityHints)
    ensures
        spec_compare_hints(h, h) == 0,
{
}

// ---------------------------------------------------------------------
// What a constant offers to reduction.
// ---------------------------------------------------------------------

/// Whether the constant carries a value that reduction may unfold: a
/// definition or a theorem.
pub fn info_has_value(info: &ConstantInfo) -> (r: bool)
    ensures
        r == (info is Defn || info is Thm),
{
    match info {
        ConstantInfo::Defn(_) | ConstantInfo::Thm(_) => true,
        _ => false,
    }
}

/// The value of a definition or a theorem.
pub fn info_value(info: &ConstantInfo) -> (r: Option<&Arc<Expr>>)
    ensures
        match *info {
            ConstantInfo::Defn(v) => r matches Some(x) && *x == v.value,
            ConstantInfo::Thm(v) => r matches Some(x) && *x == v.value,
            _ => r is None,
        },
{
    match info {
        ConstantInfo::Defn(v) => Some(&v.value),
        ConstantInfo::Thm(v) => Some(&v.value),
        _ => None,
    }
}

/// A definition's own hints; every other constant is `Opaque`.
pub fn info_hints(info: &ConstantInfo) -> (r: ReducibilityHints)
    ensures
        r == match *info {
            ConstantInfo::Defn(v) => v.hints,
            _ => ReducibilityHints::Opaque,
        },
{
    match info {
        ConstantInfo::Defn(v) => v.hints,
        _ => ReducibilityHints::Opaque,
    }
}

/// Whether a constant is unsafe: its own flag, or an unsafe definition;
/// theorems and quotient constants never are.
pub open spec fn spec_info_is_unsafe(info: ConstantInfo) -> bool {
    match info {
        ConstantInfo::Axiom(v) => v.is_unsafe,
        ConstantInfo::Defn(v) => v.safety == DefinitionSafety::Unsafe,
        ConstantInfo::Opaque(v) => v.is_unsafe,
        ConstantInfo::Induct(v) => v.is_unsafe,
        ConstantInfo::Ctor(v) => v.is_unsafe,
        ConstantInfo::Rec(v) => v.is_unsafe,
        ConstantInfo::Thm(_) | ConstantInfo::Quot(_) => false,
    }
}

/// Whether a constant is unsafe (`spec_info_is_unsafe`).
pub fn info_is_unsafe(info: &ConstantInfo) -> (r: bool)
    ensures
        r == spec_info_is_unsafe(*info),
{
    match info {
        ConstantInfo::Axiom(v) => v.is_unsafe,
        ConstantInfo::Defn(v) => v.safety == DefinitionSafety::Unsafe,
        ConstantInfo::Opaque(v) => v.is_unsafe,
        ConstantInfo::Induct(v) => v.is_unsafe,
        ConstantInfo::Ctor(v) => v.is_unsafe,
        ConstantInfo::Rec(v) => v.is_unsafe,
        ConstantInfo::Thm(_) | ConstantInfo::Quot(_) => false,
    }
}

// ---------------------------------------------------------------------
// Shapes of expressions.
// ---------------------------------------------------------------------

/// Whether `e` is the constant `name`, at any universe levels.
pub fn is_const_named(e: &Arc<Expr>, name: &Arc<Name>) -> (r: bool)
    ensures
        r == (e@ matches SExpr::Const(n, _) && n == name@),
{
    match e.node() {
        ExprNode::Const { name: n, .. } => n.equal(name),
        _ => false,
    }
}

/// Whether the head of `e` is a constant that `env` declares as a
/// constructor.
pub fn is_constructor_app(env: &Environment, e: &Arc<Expr>) -> (r: bool)
    ensures
        r == (app_fn(e@) matches SExpr::Const(n, _) && lookup(env.constants(), n) matches Some(
            ConstantInfo::Ctor(_),
        )),
{
    match Expr::get_app_fn(e).node() {
        ExprNode::Const { name, .. } => match env.get(name) {
            Some(ConstantInfo::Ctor(_)) => true,
            _ => false,
        },
        _ => false,
    }
}

/// The operation `op` of a two-component name `Nat.op`.
pub open spec fn nat_binop_spec(n: Seq<NameComp>) -> Option<Seq<char>> {
    if n.len() == 2 && n[0] == NameComp::Str("Nat"@) && n[1] is Str {
        Some(n[1]->Str_0)
    } else {
        None
    }
}

/// The operation `op` when `name` is `Nat.op` (`nat_binop_spec`).
pub fn nat_binop(name: &Name) -> (r: Option<&str>)
    ensures
        match nat_binop_spec(name@) {
            Some(op) => r matches Some(s) && s@ == op,
            None => r is None,
        },
{
    match name {
        Name::Str { parent, part } => {
            let nat_ns = Name::mk_str(Name::anonymous(), "Nat");
            proof {
                assert(nat_ns@ =~= seq![NameComp::Str("Nat"@)]);
                assert(name@ == parent@.push(NameComp::Str(part@)));
                if parent@ == nat_ns@ {
                    assert(name@ =~= seq![NameComp::Str("Nat"@), NameComp::Str(part@)]);
                } else if name@.len() == 2 {
                    assert(parent@ =~= name@.drop_last());
                    assert(parent@ =~= seq![name@[0]]);
                }
            }
            if parent.equal(&nat_ns) {
                Some(part.as_str())
            } else {
                None
            }
        },
        Name::Num { parent, .. } => {
            proof {
                assert(name@.last() is Num);
            }
            None
        },
        Name::Anonymous => None,
    }
}

/// The universe levels of the head constant of `e`; none when the head
/// is no constant.
pub fn const_levels_of_head(e: &Arc<Expr>) -> (r: Vec<Arc<Level>>)
    ensures
        levels_view(r@) == match app_fn(e@) {
            SExpr::Const(_, ls) => ls,
            _ => Seq::<SLevel>::empty(),
        },
{
    match Expr::get_app_fn(e).node() {
        ExprNode::Const { levels, .. } => {
            let mut out: Vec<Arc<Level>> = Vec::new();
            let mut i: usize = 0;
            while i < levels.len()
                invariant
                    i <= levels@.len(),
                    out@.len() == i,
                    forall|j: int| 0 <= j < i ==> (#[trigger] out@[j])@ == levels@[j]@,
                decreases levels@.len() - i,
            {
                out.push(share(&levels[i]));
                i = i + 1;
            }
            proof {
                assert(levels_view(out@) =~= levels_view(levels@));
            }
            out
        },
        _ => {
            proof {
                assert(levels_view(Seq::<Arc<Level>>::empty()) =~= Seq::<SLevel>::empty());
            }
            Vec::new()
        },
    }
}

/// The domain and body of a binder.
pub fn binder_dom_body(e: &Arc<Expr>) -> (r: (Arc<Expr>, Arc<Expr>))
    requires
        e@ is Lam || e@ is ForallE,
    ensures
        match e@ {
            SExpr::Lam(_, t, b, _) => r.0@ == *t && r.1@ == *b,
            SExpr::ForallE(_, t, b, _) => r.0@ == *t && r.1@ == *b,
            _ => false,
        },
{
    match e.node() {
        ExprNode::Lam { binder_type, body, .. } => (share(binder_type), share(body)),
        ExprNode::ForallE { binder_type, body, .. } => (share(binder_type), share(body)),
        _ => {
            proof {
                assert(false);
            }
            (share(e), share(e))
        },
    }
}

/// The domain, body, binder name and annotation of a binder.
pub fn binder_full(e: &Arc<Expr>) -> (r: (Arc<Expr>, Arc<Expr>, Arc<Name>, crate::expr::BinderInfo))
    requires
        e@ is Lam || e@ is ForallE,
    ensures
        match e@ {
            SExpr::Lam(n, t, b, bi) => r.0@ == *t && r.1@ == *b && r.2@ == n && r.3 == bi,
            SExpr::ForallE(n, t, b, bi) => r.0@ == *t && r.1@ == *b && r.2@ == n && r.3 == bi,
            _ => false,
        },
{
    match e.node() {
        ExprNode::Lam { binder_name, binder_type, body, binder_info } => (
            share(binder_type),
            share(body),
            share(binder_name),
            *binder_info,
        ),
        ExprNode::ForallE { binder_name, binder_type, body, binder_info } => (
            share(binder_type),
            share(body),
            share(binder_name),
            *binder_info,
        ),
        _ => {
            proof {
                assert(false);
            }
            (share(e), share(e), Name::anonymous(), crate::expr::BinderInfo::Default)
        },
    }
}

// ---------------------------------------------------------------------
// Constructor forms of literals.
// ---------------------------------------------------------------------

/// A natural-number literal in constructor form: `0` is the constant
/// `zero`, `n + 1` is `succ` applied to the literal `n`; anything else is
/// left as it is.
pub open spec fn nat_lit_ctor_spec(e: SExpr, zero: Seq<NameComp>, succ: Seq<NameComp>) -> SExpr {
    match e {
        SExpr::Lit(SLiteral::NatVal(v)) => if v == 0 {
            SExpr::Const(zero, Seq::empty())
        } else {
            sapp(SExpr::Const(succ, Seq::empty()), SExpr::Lit(SLiteral::NatVal((v - 1) as nat)))
        },
        _ => e,
    }
}

/// The constructor form of a natural-number literal (`nat_lit_ctor_spec`),
/// with `nat_zero` and `nat_succ` the names of `Nat.zero` and `Nat.succ`.
pub fn nat_lit_to_constructor(
    e: &Arc<Expr>,
    nat_zero: &Arc<Name>,
    nat_succ: &Arc<Name>,
    g: &mut RecGuard,
) -> (r: Result<Arc<Expr>, KernelError>)
    ensures
        *final(g) == *old(g),
        r matches Ok(x) && x@ == nat_lit_ctor_spec(e@, nat_zero@, nat_succ@),
{
    let _ = g.current_depth();
    let v = match e.node() {
        ExprNode::Lit(Literal::NatVal(v)) => v,
        _ => {
            return Ok(share(e));
        },
    };
    proof {
        assert(levels_view(Seq::<Arc<Level>>::empty()) =~= Seq::<SLevel>::empty());
    }
    if v.is_zero() {
        Expr::const_(share(nat_zero), Vec::new(), g)
    } else {
        let pred = Expr::lit(Literal::NatVal(v.sub(&Nat::from_u64(1))));
        let succ = Expr::const_(share(nat_succ), Vec::new(), g)?;
        Ok(Expr::app(succ, pred))
    }
}

/// `Char`, `List.nil.{0} Char` and `List.cons.{0} Char`.
pub open spec fn char_ty_spec() -> SExpr {
    SExpr::Const(sname("Char"@), Seq::empty())
}

/// The list of the characters `cs` as `List.cons.{0} Char (Char.ofNat c)
/// ... (List.nil.{0} Char)`, each character by its code point (`as u32`).
pub open spec fn char_list_spec(cs: Seq<char>) -> SExpr
    decreases cs.len(),
{
    if cs.len() == 0 {
        sapp(SExpr::Const(sname2("List"@, "nil"@), seq![SLevel::Zero]), char_ty_spec())
    } else {
        sapp(
            sapp(
                sapp(SExpr::Const(sname2("List"@, "cons"@), seq![SLevel::Zero]), char_ty_spec()),
                sapp(
                    SExpr::Const(sname2("Char"@, "ofNat"@), Seq::empty()),
                    SExpr::Lit(SLiteral::NatVal((cs[0] as u32) as nat)),
                ),
            ),
            char_list_spec(cs.drop_first()),
        )
    }
}

/// A string literal in constructor form: `String.ofList` applied to the
/// list of its characters.
pub open spec fn string_ctor_spec(s: Seq<char>) -> SExpr {
    sapp(SExpr::Const(sname2("String"@, "ofList"@), Seq::empty()), char_list_spec(s))
}

pub(crate) fn mk_name1(a: &str) -> (r: Arc<Name>)
    ensures
        r@ == sname(a@),
{
    let r = Name::mk_str(Name::anonymous(), a);
    proof {
        assert(r@ =~= sname(a@));
    }
    r
}

pub(crate) fn mk_name2(a: &str, b: &str) -> (r: Arc<Name>)
    ensures
        r@ == sname2(a@, b@),
{
    let r = Name::mk_str(Name::mk_str(Name::anonymous(), a), b);
    proof {
        assert(r@ =~= sname2(a@, b@));
    }
    r
}

/// The constant `n` at no universe levels, or at the one level `0`.
pub(crate) fn const0(n: Arc<Name>, at_zero: bool) -> (r: Arc<Expr>)
    ensures
        r@ == SExpr::Const(n@, if at_zero { seq![SLevel::Zero] } else { Seq::empty() }),
{
    let mut ls: Vec<Arc<Level>> = Vec::new();
    if at_zero {
        ls.push(Arc::new(Level::Zero));
    }
    let ghost lv = ls@;
    proof {
        if at_zero {
            assert(levels_view(lv) =~= seq![SLevel::Zero]);
        } else {
            assert(levels_view(lv) =~= Seq::<SLevel>::empty());
        }
    }
    let mut g = RecGuard::new();
    match Expr::const_(n, ls, &mut g) {
        Ok(e) => e,
        Err(_) => {
            proof {
                if at_zero {
                    assert(level_height(lv[0]@) == 0);
                }
                assert(false);
            }
            Expr::bvar(Nat::from_u64(0))
        },
    }
}

/// The constructor form of the string literal `s` (`string_ctor_spec`).
pub fn string_lit_to_constructor(s: &str, g: &mut RecGuard) -> (r: Result<
    Arc<Expr>,
    KernelError,
>)
    ensures
        *final(g) == *old(g),
        r matches Ok(x) && x@ == string_ctor_spec(s@),
{
    let char_ty = const0(mk_name1("Char"), false);
    let list_nil = const0(mk_name2("List", "nil"), true);
    let list_cons = const0(mk_name2("List", "cons"), true);
    let char_of_nat = const0(mk_name2("Char", "ofNat"), false);
    let string_mk = const0(mk_name2("String", "ofList"), false);
    let mut chars: Vec<char> = Vec::new();
    for c in it: s.chars()
        invariant
            chars@ == it.seq().take(it.index() as int),
    {
        chars.push(c);
    }
    let ghost cs = s@;
    proof {
        assert(chars@ == cs);
    }
    let nil = Expr::app(list_nil, share(&char_ty));
    let cons_char = Expr::app(list_cons, char_ty);
    let mut r = nil;
    let mut j: usize = chars.len();
    proof {
        assert(cs.skip(j as int) =~= Seq::<char>::empty());
    }
    while j > 0
        invariant
            j <= chars@.len(),
            chars@ == cs,
            cons_char@ == sapp(
                SExpr::Const(sname2("List"@, "cons"@), seq![SLevel::Zero]),
                char_ty_spec(),
            ),
            char_of_nat@ == SExpr::Const(sname2("Char"@, "ofNat"@), Seq::<SLevel>::empty()),
            r@ == char_list_spec(cs.skip(j as int)),
        decreases j,
    {
        let cp = chars[j - 1];
        let code: u32 = cp as u32;
        let lit = Expr::lit(Literal::NatVal(Nat::from_u64(code as u64)));
        let c = Expr::app(share(&char_of_nat), lit);
        proof {
            assert(cs.skip(j - 1).drop_first() =~= cs.skip(j as int));
            assert(cs.skip(j - 1)[0] == cp);
        }
        r = Expr::app(Expr::app(share(&cons_char), c), r);
        j = j - 1;
    }
    proof {
        assert(cs.skip(0) =~= cs);
    }
    Ok(Expr::app(string_mk, r))
}

// ---------------------------------------------------------------------
// Recursors.
// ---------------------------------------------------------------------

/// The first rule of `rules` for the constructor at the head of `major`;
/// none when the head is no constant or no rule names it.
pub fn get_rec_rule_for<'a>(rules: &'a [RecursorRule], major: &Arc<Expr>) -> (r: Option<
    &'a RecursorRule,
>)
    ensures
        match app_fn(major@) {
            SExpr::Const(n, _) => match r {
                Some(x) => exists|i: int|
                    0 <= i < rules@.len() && *x == rules@[i] && rules@[i].ctor@ == n && forall|
                        j: int,
                    | 0 <= j < i ==> (#[trigger] rules@[j]).ctor@ != n,
                None => forall|j: int| 0 <= j < rules@.len() ==> (#[trigger] rules@[j]).ctor@ != n,
            },
            _ => r is None,
        },
{
    let head = Expr::get_app_fn(major);
    let name = match head.const_name() {
        Some(n) => n,
        None => {
            return None;
        },
    };
    let mut i: usize = 0;
    while i < rules.len()
        invariant
            i <= rules@.len(),
            app_fn(major@) matches SExpr::Const(n, _) && n == name@,
            forall|j: int| 0 <= j < i ==> (#[trigger] rules@[j]).ctor@ != name@,
        decreases rules@.len() - i,
    {
        if rules[i].ctor.equal(name) {
            return Some(&rules[i]);
        }
        i = i + 1;
    }
    None
}

/// `e` with its first `k` `Π` binders removed, if it has that many.
pub open spec fn skip_pis(e: SExpr, k: nat) -> Option<SExpr>
    decreases k,
{
    if k == 0 {
        Some(e)
    } else {
        match e {
            SExpr::ForallE(_, _, b, _) => skip_pis(*b, (k - 1) as nat),
            _ => None,
        }
    }
}

/// The inductive type a recursor of type `ty` recurses on: past
/// `major_idx` binders, the head constant of the next binder's domain.
pub open spec fn major_induct_spec(ty: SExpr, major_idx: nat) -> Option<Seq<NameComp>> {
    match skip_pis(ty, major_idx) {
        Some(SExpr::ForallE(_, dom, _, _)) => match app_fn(*dom) {
            SExpr::Const(n, _) => Some(n),
            _ => None,
        },
        _ => None,
    }
}

/// The inductive type a recursor of type `ty` recurses on
/// (`major_induct_spec`).
pub fn get_major_induct(ty: &Arc<Expr>, major_idx: usize) -> (r: Option<Arc<Name>>)
    ensures
        match major_induct_spec(ty@, major_idx as nat) {
            Some(n) => r matches Some(x) && x@ == n,
            None => r is None,
        },
{
    let mut t: &Arc<Expr> = ty;
    let mut i: usize = 0;
    while i < major_idx
        invariant
            i <= major_idx,
            skip_pis(ty@, major_idx as nat) == skip_pis(t@, (major_idx - i) as nat),
        decreases major_idx - i,
    {
        match t.node() {
            ExprNode::ForallE { body, .. } => {
                t = body;
            },
            _ => {
                return None;
            },
        }
        i = i + 1;
    }
    match t.node() {
        ExprNode::ForallE { binder_type, .. } => match Expr::get_app_fn(binder_type).node() {
            ExprNode::Const { name, .. } => Some(share(name)),
            _ => None,
        },
        _ => None,
    }
}

// ---------------------------------------------------------------------
// Universe parameters.
// ---------------------------------------------------------------------

/// The first universe parameter of `l`, left to right, that is not among
/// `ps`.
pub open spec fn undef_param(l: SLevel, ps: Seq<Seq<NameComp>>) -> Option<Seq<NameComp>>
    decreases l,
{
    match l {
        SLevel::Param(n) => if ps.contains(n) {
            None
        } else {
            Some(n)
        },
        SLevel::Succ(a) => undef_param(*a, ps),
        SLevel::Max(a, b) | SLevel::IMax(a, b) => match undef_param(*a, ps) {
            Some(n) => Some(n),
            None => undef_param(*b, ps),
        },
        _ => None,
    }
}

pub(crate) fn name_in(n: &Name, ps: &[Arc<Name>]) -> (r: bool)
    ensures
        r == names_view(ps@).contains(n@),
{
    let ghost pv = names_view(ps@);
    let mut i: usize = 0;
    while i < ps.len()
        invariant
            i <= ps@.len(),
            pv == names_view(ps@),
            forall|j: int| 0 <= j < i ==> pv[j] != n@,
        decreases ps@.len() - i,
    {
        if ps[i].equal(n) {
            proof {
                assert(pv[i as int] == n@);
            }
            return true;
        }
        i = i + 1;
    }
    false
}

/// The first universe parameter of `l` not among `ps` (`undef_param`).
/// The walk runs under the guard.
pub fn get_undef_param(l: &Arc<Level>, ps: &[Arc<Name>], g: &mut RecGuard) -> (r: Result<
    Option<Arc<Name>>,
    KernelError,
>)
    ensures
        *final(g) == *old(g),
        r matches Ok(x) ==> match undef_param(l@, names_view(ps@)) {
            Some(n) => x matches Some(y) && y@ == n,
            None => x is None,
        },
        r matches Err(e) ==> e is DeepRecursion,
        level_fits(*old(g), l@) ==> r is Ok,
    decreases l,
{
    match &**l {
        Level::Zero | Level::MVar(_) => Ok(None),
        Level::Param(n) => {
            if name_in(n, ps) {
                Ok(None)
            } else {
                Ok(Some(share(n)))
            }
        },
        Level::Succ(a) => {
            let a = share(a);
            let f = move |g2: RecGuard| -> (r: Result<Option<Arc<Name>>, KernelError>)
                    ensures
                        r matches Ok(x) ==> match undef_param(a@, names_view(ps@)) {
                            Some(n) => x matches Some(y) && y@ == n,
                            None => x is None,
                        },
                        r matches Err(e) ==> e is DeepRecursion,
                        level_fits(g2, a@) ==> r is Ok,
                    {
                        let mut g3 = g2;
                        get_undef_param(&a, ps, &mut g3)
                    };
            g.enter(f)
        },
        Level::Max(a, b) | Level::IMax(a, b) => {
            let (a, b) = (share(a), share(b));
            let f = move |g2: RecGuard| -> (r: Result<Option<Arc<Name>>, KernelError>)
                    ensures
                        r matches Ok(x) ==> match (match undef_param(a@, names_view(ps@)) {
                            Some(n) => Some(n),
                            None => undef_param(b@, names_view(ps@)),
                        }) {
                            Some(n) => x matches Some(y) && y@ == n,
                            None => x is None,
                        },
                        r matches Err(e) ==> e is DeepRecursion,
                        level_fits(g2, a@) && level_fits(g2, b@) ==> r is Ok,
                    {
                        let mut g3 = g2;
                        match get_undef_param(&a, ps, &mut g3) {
                            Err(e) => Err(e),
                            Ok(Some(n)) => Ok(Some(n)),
                            Ok(None) => get_undef_param(&b, ps, &mut g3),
                        }
                    };
            g.enter(f)
        },
    }
}

// ---------------------------------------------------------------------
// Cheap beta reduction.
// ---------------------------------------------------------------------

/// At most `n` leading `λ` binders of `f` removed: what is left and how
/// many were removed.
pub open spec fn peel_lams(f: SExpr, n: nat) -> (SExpr, nat)
    decreases n,
{
    if n == 0 {
        (f, 0)
    } else {
        match f {
            SExpr::Lam(_, _, b, _) => {
                let p = peel_lams(*b, (n - 1) as nat);
                (p.0, p.1 + 1)
            },
            _ => (f, 0),
        }
    }
}

/// Cheap beta reduction of `e`: when `e` applies a `λ` to arguments, peel
/// as many binders as there are arguments; a body whose cached loose
/// range is zero is applied to the arguments left over; a body that is
/// the bound variable of a peeled binder becomes the matching argument,
/// applied to the arguments left over; anything else leaves `e` as it is.
pub open spec fn cheap_beta_spec(e: SExpr) -> SExpr {
    if !(e is App) || !(app_fn(e) is Lam) {
        e
    } else {
        let args = app_args(e);
        let p = peel_lams(app_fn(e), args.len());
        let cur = p.0;
        let i = p.1;
        if expr_fields(cur).range == 0 {
            mk_spine(cur, args.skip(i as int))
        } else {
            match cur {
                SExpr::BVar(k) => if k < i {
                    mk_spine(args[i - k - 1], args.skip(i as int))
                } else {
                    e
                },
                _ => e,
            }
        }
    }
}

/// `f` applied to `args[start..]` in order.
fn spine_from(f: Arc<Expr>, args: &Vec<Arc<Expr>>, start: usize) -> (r: Arc<Expr>)
    requires
        start <= args@.len(),
    ensures
        r@ == mk_spine(f@, exprs_view(args@).skip(start as int)),
{
    let ghost fv = f@;
    let ghost av = exprs_view(args@);
    let mut r = f;
    let mut j: usize = start;
    proof {
        assert(av.skip(start as int).take(0) =~= Seq::<SExpr>::empty());
    }
    while j < args.len()
        invariant
            start <= j <= args@.len(),
            av == exprs_view(args@),
            r@ == mk_spine(fv, av.skip(start as int).take(j - start)),
        decreases args@.len() - j,
    {
        proof {
            let t = av.skip(start as int).take(j + 1 - start);
            assert(t.drop_last() =~= av.skip(start as int).take(j - start));
            assert(t.last() == args@[j as int]@);
        }
        r = Expr::app(r, share(&args[j]));
        j = j + 1;
    }
    proof {
        assert(av.skip(start as int).take(j - start) =~= av.skip(start as int));
    }
    r
}

/// Cheap beta reduction (`cheap_beta_spec`): no substitution, so it needs
/// no guard and cannot fail.
pub fn cheap_beta_reduce(e: &Arc<Expr>) -> (r: Arc<Expr>)
    ensures
        r@ == cheap_beta_spec(e@),
{
    if !e.is_app() {
        return share(e);
    }
    let f0 = Expr::get_app_fn(e);
    if !f0.is_lambda() {
        return share(e);
    }
    let args = Expr::get_app_args(e);
    let ghost av = exprs_view(args@);
    let ghost n = args@.len();
    let mut cur: &Arc<Expr> = f0;
    let mut i: usize = 0;
    while i < args.len()
        invariant
            i <= args@.len(),
            n == args@.len(),
            peel_lams(app_fn(e@), n) == (
                peel_lams(cur@, (n - i) as nat).0,
                (peel_lams(cur@, (n - i) as nat).1 + i) as nat,
            ),
        ensures
            peel_lams(app_fn(e@), n) == (cur@, i as nat),
        decreases args@.len() - i,
    {
        match cur.node() {
            ExprNode::Lam { body, .. } => {
                cur = body;
                i = i + 1;
            },
            _ => {
                break;
            },
        }
    }
    if cur.data().loose_bvar_range() == 0 {
        spine_from(share(cur), &args, i)
    } else {
        match cur.node() {
            ExprNode::BVar { idx } => match idx.to_usize() {
                Some(k) => {
                    if k < i {
                        proof {
                            assert(av[i - k - 1] == args@[i - k - 1]@);
                        }
                        spine_from(share(&args[i - k - 1]), &args, i)
                    } else {
                        share(e)
                    }
                },
                None => share(e),
            },
            _ => share(e),
        }
    }
}

} // verus!
