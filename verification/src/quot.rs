//! Admission of the quotient extension: once the environment holds an
//! `Eq` of the expected shape, the four built-in constants `Quot`,
//! `Quot.mk`, `Quot.lift` and `Quot.ind` are declared with their fixed
//! types and the environment is marked quotient-initialized.
use crate::decl::{ConstantInfo, ConstantVal, QuotKind, QuotVal};
use crate::env::{const_name, lookup, Environment};
use crate::error::KernelError;
use crate::expr::{alpha_equiv, expr_height, BinderInfo, Expr, SExpr};
use crate::guard::{RecGuard, MAX_REC_DEPTH};
use crate::level::{level_height, names_view, Level, SLevel};
use crate::name::{Name, NameComp};
use crate::num::Nat;
use crate::shared::share;
use std::sync::Arc;
use vstd::prelude::*;

verus! {

// ---------------------------------------------------------------------
// The terms involved, in de Bruijn form.
// ---------------------------------------------------------------------

/// The one-component name `s`.
pub open spec fn sname(s: Seq<char>) -> Seq<NameComp> {
    seq![NameComp::Str(s)]
}

/// The two-component name `a.b`.
pub open spec fn sname2(a: Seq<char>, b: Seq<char>) -> Seq<NameComp> {
    seq![NameComp::Str(a), NameComp::Str(b)]
}

/// `Π (n : t), b` with annotation `bi`.
pub open spec fn spi(n: Seq<char>, t: SExpr, b: SExpr, bi: BinderInfo) -> SExpr {
    SExpr::ForallE(sname(n), Box::new(t), Box::new(b), bi)
}

/// The non-dependent arrow `t → b`: a `Π` whose binder is named `a`.
pub open spec fn sarrow(t: SExpr, b: SExpr) -> SExpr {
    spi("a"@, t, b, BinderInfo::Default)
}

pub open spec fn sapp(f: SExpr, a: SExpr) -> SExpr {
    SExpr::App(Box::new(f), Box::new(a))
}

pub open spec fn sbv(i: nat) -> SExpr {
    SExpr::BVar(i)
}

/// `Prop`, that is `Sort 0`.
pub open spec fn sprop() -> SExpr {
    SExpr::Sort(SLevel::Zero)
}

/// `Sort u` for the universe parameter `u`.
pub open spec fn ssort(u: Seq<NameComp>) -> SExpr {
    SExpr::Sort(SLevel::Param(u))
}

/// `Π {α : Sort u}, α → α → Prop`: the type `Eq` must have.
pub open spec fn expected_eq_type(u: Seq<NameComp>) -> SExpr {
    spi(
        "α"@,
        ssort(u),
        sarrow(sbv(0), sarrow(sbv(1), sprop())),
        BinderInfo::Implicit,
    )
}

/// `Π {α : Sort u} (a : α), @Eq.{u} α a a`: the type `Eq.refl` must have.
pub open spec fn expected_refl_type(u: Seq<NameComp>) -> SExpr {
    spi(
        "α"@,
        ssort(u),
        spi(
            "a"@,
            sbv(0),
            sapp(
                sapp(sapp(SExpr::Const(sname("Eq"@), seq![SLevel::Param(u)]), sbv(1)), sbv(0)),
                sbv(0),
            ),
            BinderInfo::Default,
        ),
        BinderInfo::Implicit,
    )
}

/// Whether `Eq` is an inductive type with one universe parameter, one
/// constructor, and the expected type, and that constructor has a
/// universe parameter and the expected type (both up to binder names and
/// annotations).
pub open spec fn eq_shape_ok(cs: Seq<ConstantInfo>) -> bool {
    match lookup(cs, sname("Eq"@)) {
        Some(ConstantInfo::Induct(v)) => {
            &&& v.val.level_params@.len() == 1
            &&& v.ctors@.len() == 1
            &&& alpha_equiv(expected_eq_type(v.val.level_params@[0]@), v.val.ty@)
            &&& match lookup(cs, v.ctors@[0]@) {
                Some(ConstantInfo::Ctor(c)) => {
                    &&& c.val.level_params@.len() >= 1
                    &&& alpha_equiv(expected_refl_type(c.val.level_params@[0]@), c.val.ty@)
                },
                _ => false,
            }
        },
        _ => false,
    }
}

/// The universe parameters `u` and `v`.
pub open spec fn univ_u() -> Seq<NameComp> {
    sname("u"@)
}

pub open spec fn univ_v() -> Seq<NameComp> {
    sname("v"@)
}

/// `α → α → Prop` under the binder of `α`.
pub open spec fn rel_type() -> SExpr {
    sarrow(sbv(0), sarrow(sbv(1), sprop()))
}

/// `@Quot.{u} a b`.
pub open spec fn quot_of(a: SExpr, b: SExpr) -> SExpr {
    sapp(sapp(SExpr::Const(sname("Quot"@), seq![SLevel::Param(univ_u())]), a), b)
}

/// `Quot.{u} {α : Sort u} (r : α → α → Prop) : Sort u`.
pub open spec fn quot_type() -> SExpr {
    spi(
        "α"@,
        ssort(univ_u()),
        spi("r"@, rel_type(), ssort(univ_u()), BinderInfo::Default),
        BinderInfo::Implicit,
    )
}

/// `Quot.mk.{u} {α : Sort u} (r : α → α → Prop) (a : α) : @Quot.{u} α r`.
pub open spec fn quot_mk_type() -> SExpr {
    spi(
        "α"@,
        ssort(univ_u()),
        spi(
            "r"@,
            rel_type(),
            spi("a"@, sbv(1), quot_of(sbv(2), sbv(1)), BinderInfo::Default),
            BinderInfo::Default,
        ),
        BinderInfo::Implicit,
    )
}

/// `∀ a b : α, r a b → f a = f b` under the binders `α r β f`.
pub open spec fn lift_sanity() -> SExpr {
    spi(
        "a"@,
        sbv(3),
        spi(
            "b"@,
            sbv(4),
            sarrow(
                sapp(sapp(sbv(4), sbv(1)), sbv(0)),
                sapp(
                    sapp(
                        sapp(SExpr::Const(sname("Eq"@), seq![SLevel::Param(univ_v())]), sbv(4)),
                        sapp(sbv(3), sbv(2)),
                    ),
                    sapp(sbv(3), sbv(1)),
                ),
            ),
            BinderInfo::Default,
        ),
        BinderInfo::Default,
    )
}

/// `Quot.lift.{u, v} {α : Sort u} {r : α → α → Prop} {β : Sort v}
/// (f : α → β) : (∀ a b : α, r a b → f a = f b) → @Quot.{u} α r → β`.
pub open spec fn quot_lift_type() -> SExpr {
    spi(
        "α"@,
        ssort(univ_u()),
        spi(
            "r"@,
            rel_type(),
            spi(
                "β"@,
                ssort(univ_v()),
                spi(
                    "f"@,
                    sarrow(sbv(2), sbv(1)),
                    sarrow(lift_sanity(), sarrow(quot_of(sbv(4), sbv(3)), sbv(3))),
                    BinderInfo::Default,
                ),
                BinderInfo::Implicit,
            ),
            BinderInfo::Implicit,
        ),
        BinderInfo::Implicit,
    )
}

/// `(∀ a : α, β (@Quot.mk.{u} α r a)) → ∀ q : @Quot.{u} α r, β q` under
/// the binders `α r β`; the outer binder is named `mk`.
pub open spec fn ind_body() -> SExpr {
    spi(
        "mk"@,
        spi(
            "a"@,
            sbv(2),
            sapp(
                sbv(1),
                sapp(
                    sapp(
                        sapp(
                            SExpr::Const(sname2("Quot"@, "mk"@), seq![SLevel::Param(univ_u())]),
                            sbv(3),
                        ),
                        sbv(2),
                    ),
                    sbv(0),
                ),
            ),
            BinderInfo::Default,
        ),
        spi("q"@, quot_of(sbv(3), sbv(2)), sapp(sbv(2), sbv(0)), BinderInfo::Default),
        BinderInfo::Default,
    )
}

/// `Quot.ind.{u} {α : Sort u} {r : α → α → Prop} {β : @Quot.{u} α r →
/// Prop} : (∀ a : α, β (@Quot.mk.{u} α r a)) → ∀ q : @Quot.{u} α r, β q`.
pub open spec fn quot_ind_type() -> SExpr {
    spi(
        "α"@,
        ssort(univ_u()),
        spi(
            "r"@,
            rel_type(),
            spi(
                "β"@,
                sarrow(quot_of(sbv(1), sbv(0)), sprop()),
                ind_body(),
                BinderInfo::Implicit,
            ),
            BinderInfo::Implicit,
        ),
        BinderInfo::Implicit,
    )
}

/// `c` is the quotient constant `name` of kind `kind`, universe
/// parameters `lps` and type `ty`.
pub open spec fn quot_decl(
    c: Option<ConstantInfo>,
    name: Seq<NameComp>,
    kind: QuotKind,
    lps: Seq<Seq<NameComp>>,
    ty: SExpr,
) -> bool {
    &&& c matches Some(ConstantInfo::Quot(v))
    &&& v.val.name@ == name
    &&& names_view(v.val.level_params@) == lps
    &&& v.val.ty@ == ty
    &&& v.kind == kind
}

/// The names of the four quotient constants.
pub open spec fn is_quot_name(n: Seq<NameComp>) -> bool {
    ||| n == sname("Quot"@)
    ||| n == sname2("Quot"@, "mk"@)
    ||| n == sname2("Quot"@, "lift"@)
    ||| n == sname2("Quot"@, "ind"@)
}

/// `new` is `old` with the four quotient constants declared.
pub open spec fn quot_added(old: Seq<ConstantInfo>, new: Seq<ConstantInfo>) -> bool {
    &&& forall|n: Seq<NameComp>| !is_quot_name(n) ==> #[trigger] lookup(new, n) == lookup(old, n)
    &&& quot_decl(
        lookup(new, sname("Quot"@)),
        sname("Quot"@),
        QuotKind::Type,
        seq![univ_u()],
        quot_type(),
    )
    &&& quot_decl(
        lookup(new, sname2("Quot"@, "mk"@)),
        sname2("Quot"@, "mk"@),
        QuotKind::Ctor,
        seq![univ_u()],
        quot_mk_type(),
    )
    &&& quot_decl(
        lookup(new, sname2("Quot"@, "lift"@)),
        sname2("Quot"@, "lift"@),
        QuotKind::Lift,
        seq![univ_u(), univ_v()],
        quot_lift_type(),
    )
    &&& quot_decl(
        lookup(new, sname2("Quot"@, "ind"@)),
        sname2("Quot"@, "ind"@),
        QuotKind::Ind,
        seq![univ_u()],
        quot_ind_type(),
    )
}

/// The error of a quotient admission: `InvalidQuot` naming `Eq`.
pub open spec fn is_eq_error(e: KernelError) -> bool {
    e matches KernelError::InvalidQuot { what } && what@ == "Eq"@
}

// ---------------------------------------------------------------------
// Builders.
// ---------------------------------------------------------------------

fn nm(s: &str) -> (r: Arc<Name>)
    ensures
        r@ == sname(s@),
{
    let r = Name::mk_str(Name::anonymous(), s);
    proof {
        assert(r@ =~= sname(s@));
    }
    r
}

fn nm2(a: &str, b: &str) -> (r: Arc<Name>)
    ensures
        r@ == sname2(a@, b@),
{
    let r = Name::mk_str(Name::mk_str(Name::anonymous(), a), b);
    proof {
        assert(r@ =~= sname2(a@, b@));
    }
    r
}

fn bv(i: u64) -> (r: Arc<Expr>)
    ensures
        r@ == sbv(i as nat),
{
    Expr::bvar(Nat::from_u64(i))
}

fn pi(n: &str, t: Arc<Expr>, b: Arc<Expr>, bi: BinderInfo) -> (r: Arc<Expr>)
    ensures
        r@ == spi(n@, t@, b@, bi),
{
    Expr::forall_e(nm(n), t, b, bi)
}

fn arrow(t: Arc<Expr>, b: Arc<Expr>) -> (r: Arc<Expr>)
    ensures
        r@ == sarrow(t@, b@),
{
    pi("a", t, b, BinderInfo::Default)
}

fn param(n: Arc<Name>) -> (r: Arc<Level>)
    ensures
        r@ == SLevel::Param(n@),
{
    Arc::new(Level::Param(n))
}

/// `Sort l` for a level of no height.
fn sort_flat(l: Arc<Level>, g: &mut RecGuard) -> (r: Arc<Expr>)
    requires
        level_height(l@) == 0,
        old(g).depth() <= MAX_REC_DEPTH,
    ensures
        r@ == SExpr::Sort(l@),
        *final(g) == *old(g),
{
    match Expr::sort(l, g) {
        Ok(e) => e,
        Err(_) => {
            proof {
                assert(false);
            }
            Expr::bvar(Nat::from_u64(0))
        },
    }
}

/// The constant `n` at the one universe `l`, a level of no height.
fn const_flat(n: Arc<Name>, l: Arc<Level>, g: &mut RecGuard) -> (r: Arc<Expr>)
    requires
        level_height(l@) == 0,
        old(g).depth() <= MAX_REC_DEPTH,
    ensures
        r@ == SExpr::Const(n@, seq![l@]),
        *final(g) == *old(g),
{
    let mut ls: Vec<Arc<Level>> = Vec::new();
    ls.push(l);
    let ghost lv = ls@;
    proof {
        assert(lv[0]@ == l@);
        assert(crate::level::levels_view(lv) =~= seq![l@]);
    }
    match Expr::const_(n, ls, g) {
        Ok(e) => e,
        Err(_) => {
            proof {
                assert(level_height(lv[0]@) == 0);
                assert(false);
            }
            Expr::bvar(Nat::from_u64(0))
        },
    }
}

fn quot_const(name: Arc<Name>, lps: Vec<Arc<Name>>, ty: Arc<Expr>, kind: QuotKind) -> (r:
    ConstantInfo)
    ensures
        r == ConstantInfo::Quot(QuotVal { val: ConstantVal { name, level_params: lps, ty }, kind }),
{
    ConstantInfo::Quot(QuotVal { val: ConstantVal { name, level_params: lps, ty }, kind })
}

// ---------------------------------------------------------------------
// Admission.
// ---------------------------------------------------------------------

/// `Ok` when `Eq` and `Eq.refl` have the shape the quotient needs
/// (`eq_shape_ok`), else `InvalidQuot` naming `Eq`.
fn check_eq_type(env: &Environment, g: &mut RecGuard) -> (r: Result<(), KernelError>)
    requires
        old(g).depth() + 8 <= MAX_REC_DEPTH,
    ensures
        *final(g) == *old(g),
        r is Ok <==> eq_shape_ok(env.constants()),
        r matches Err(e) ==> is_eq_error(e),
{
    let eq_name = nm("Eq");
    let eq_val = match env.get(&eq_name) {
        Some(ConstantInfo::Induct(v)) => v,
        _ => {
            return Err(KernelError::InvalidQuot { what: "Eq" });
        },
    };
    if eq_val.val.level_params.len() != 1 {
        return Err(KernelError::InvalidQuot { what: "Eq" });
    }
    if eq_val.ctors.len() != 1 {
        return Err(KernelError::InvalidQuot { what: "Eq" });
    }
    let u = param(share(&eq_val.val.level_params[0]));
    let sort_u = sort_flat(u, g);
    let prop = sort_flat(Arc::new(Level::Zero), g);
    let expected_eq = pi("α", sort_u, arrow(bv(0), arrow(bv(1), prop)), BinderInfo::Implicit);
    proof {
        assert(expected_eq@ == expected_eq_type(eq_val.val.level_params@[0]@));
        reveal_with_fuel(expr_height, 5);
        reveal_with_fuel(crate::expr::has_syntax, 5);
        assert(expr_height(expected_eq@) <= 8);
        assert(!crate::expr::has_syntax(expected_eq@));
    }
    let same = match Expr::alpha_eq(&expected_eq, &eq_val.val.ty, g) {
        Ok(b) => b,
        Err(_) => {
            proof {
                assert(false);
            }
            false
        },
    };
    if !same {
        return Err(KernelError::InvalidQuot { what: "Eq" });
    }
    let refl_val = match env.get(&eq_val.ctors[0]) {
        Some(ConstantInfo::Ctor(v)) => v,
        _ => {
            return Err(KernelError::InvalidQuot { what: "Eq" });
        },
    };
    if refl_val.val.level_params.len() == 0 {
        return Err(KernelError::InvalidQuot { what: "Eq" });
    }
    let ru = param(share(&refl_val.val.level_params[0]));
    let sort_ru = sort_flat(share(&ru), g);
    let eq_const = const_flat(nm("Eq"), ru, g);
    let eq_app = Expr::app(Expr::app(Expr::app(eq_const, bv(1)), bv(0)), bv(0));
    let expected_refl = pi(
        "α",
        sort_ru,
        pi("a", bv(0), eq_app, BinderInfo::Default),
        BinderInfo::Implicit,
    );
    proof {
        assert(expected_refl@ == expected_refl_type(refl_val.val.level_params@[0]@));
        reveal_with_fuel(expr_height, 7);
        reveal_with_fuel(crate::expr::levels_height, 2);
        reveal_with_fuel(crate::expr::has_syntax, 7);
        assert(expr_height(expected_refl@) <= 8);
        assert(!crate::expr::has_syntax(expected_refl@));
    }
    let same_refl = match Expr::alpha_eq(&expected_refl, &refl_val.val.ty, g) {
        Ok(b) => b,
        Err(_) => {
            proof {
                assert(false);
            }
            false
        },
    };
    if !same_refl {
        return Err(KernelError::InvalidQuot { what: "Eq" });
    }
    Ok(())
}

/// Declares the quotient constants `Quot`, `Quot.mk`, `Quot.lift` and
/// `Quot.ind` with their fixed types (`quot_added`) and marks the
/// environment quotient-initialized, once `Eq` has the expected shape
/// (`eq_shape_ok`); otherwise `InvalidQuot` naming `Eq` and nothing
/// changes. On an environment already quotient-initialized it does
/// nothing and succeeds.
pub fn add_quot(env: &mut Environment) -> (r: Result<(), KernelError>)
    ensures
        old(env).quot_init() ==> r is Ok && final(env).constants() == old(env).constants()
            && final(env).quot_init(),
        !old(env).quot_init() ==> (r is Ok <==> eq_shape_ok(old(env).constants())),
        !old(env).quot_init() && r is Ok ==> final(env).quot_init() && quot_added(
            old(env).constants(),
            final(env).constants(),
        ),
        r matches Err(e) ==> is_eq_error(e) && final(env).constants() == old(env).constants()
            && final(env).quot_init() == old(env).quot_init(),
{
    if env.quot_initialized() {
        return Ok(());
    }
    let mut v = quot_constants(env)?;
    let c4 = v.pop().unwrap();
    let c3 = v.pop().unwrap();
    let c2 = v.pop().unwrap();
    let c1 = v.pop().unwrap();
    proof {
        reveal_strlit("Quot");
        reveal_strlit("mk");
        reveal_strlit("lift");
        reveal_strlit("ind");
        assert("mk"@.len() == 2 && "lift"@.len() == 4 && "ind"@.len() == 3);
        assert(sname2("Quot"@, "mk"@)[1] != sname2("Quot"@, "lift"@)[1]);
        assert(sname2("Quot"@, "mk"@)[1] != sname2("Quot"@, "ind"@)[1]);
        assert(sname2("Quot"@, "lift"@)[1] != sname2("Quot"@, "ind"@)[1]);
        assert(sname2("Quot"@, "mk"@) != sname2("Quot"@, "lift"@));
        assert(sname2("Quot"@, "mk"@) != sname2("Quot"@, "ind"@));
        assert(sname2("Quot"@, "lift"@) != sname2("Quot"@, "ind"@));
        assert(sname("Quot"@).len() != sname2("Quot"@, "mk"@).len());
        assert(sname("Quot"@).len() != sname2("Quot"@, "lift"@).len());
        assert(sname("Quot"@).len() != sname2("Quot"@, "ind"@).len());
        assert(sname("Quot"@) != sname2("Quot"@, "mk"@));
        assert(sname("Quot"@) != sname2("Quot"@, "lift"@));
        assert(sname("Quot"@) != sname2("Quot"@, "ind"@));
    }
    env.add_core(c1);
    env.add_core(c2);
    env.add_core(c3);
    env.add_core(c4);
    env.set_quot_initialized();
    proof {
        assert(lookup(env.constants(), sname("Quot"@)) == Some(c1));
        assert(lookup(env.constants(), sname2("Quot"@, "mk"@)) == Some(c2));
        assert(lookup(env.constants(), sname2("Quot"@, "lift"@)) == Some(c3));
        assert(lookup(env.constants(), sname2("Quot"@, "ind"@)) == Some(c4));
    }
    Ok(())
}

/// The four quotient constants `Quot`, `Quot.mk`, `Quot.lift` and
/// `Quot.ind`, in that order, with their fixed types.
pub open spec fn quot_constants_ok(s: Seq<ConstantInfo>) -> bool {
    &&& s.len() == 4
    &&& quot_decl(Some(s[0]), sname("Quot"@), QuotKind::Type, seq![univ_u()], quot_type())
    &&& quot_decl(Some(s[1]), sname2("Quot"@, "mk"@), QuotKind::Ctor, seq![univ_u()], quot_mk_type())
    &&& quot_decl(
        Some(s[2]),
        sname2("Quot"@, "lift"@),
        QuotKind::Lift,
        seq![univ_u(), univ_v()],
        quot_lift_type(),
    )
    &&& quot_decl(Some(s[3]), sname2("Quot"@, "ind"@), QuotKind::Ind, seq![univ_u()], quot_ind_type())
}

/// Once `Eq` has the expected shape (`eq_shape_ok`), the quotient
/// constants to declare (`quot_constants_ok`); otherwise `InvalidQuot`
/// naming `Eq`.
pub(crate) fn quot_constants(env: &Environment) -> (r: Result<Vec<ConstantInfo>, KernelError>)
    ensures
        r is Ok <==> eq_shape_ok(env.constants()),
        r matches Err(e) ==> is_eq_error(e),
        r matches Ok(v) ==> quot_constants_ok(v@),
{
    let mut g0 = RecGuard::new();
    check_eq_type(env, &mut g0)?;
    let mut g = RecGuard::new();
    let u_name = nm("u");
    let v_name = nm("v");
    let sort_u = sort_flat(param(share(&u_name)), &mut g);
    let sort_v = sort_flat(param(share(&v_name)), &mut g);
    let prop = sort_flat(Arc::new(Level::Zero), &mut g);
    let quot_u = const_flat(nm("Quot"), param(share(&u_name)), &mut g);
    let quot_mk_u = const_flat(nm2("Quot", "mk"), param(share(&u_name)), &mut g);
    let eq_v = const_flat(nm("Eq"), param(share(&v_name)), &mut g);
    // α → α → Prop, under the binder of α
    let rel = arrow(bv(0), arrow(bv(1), share(&prop)));

    // Quot.{u} {α : Sort u} (r : α → α → Prop) : Sort u
    let quot_ty = pi(
        "α",
        share(&sort_u),
        pi("r", share(&rel), share(&sort_u), BinderInfo::Default),
        BinderInfo::Implicit,
    );
    // Quot.mk.{u} {α : Sort u} (r : α → α → Prop) (a : α) : @Quot.{u} α r
    let mk_ty = pi(
        "α",
        share(&sort_u),
        pi(
            "r",
            share(&rel),
            pi(
                "a",
                bv(1),
                Expr::app(Expr::app(share(&quot_u), bv(2)), bv(1)),
                BinderInfo::Default,
            ),
            BinderInfo::Default,
        ),
        BinderInfo::Implicit,
    );
    // ∀ a b : α, r a b → f a = f b
    let sanity = pi(
        "a",
        bv(3),
        pi(
            "b",
            bv(4),
            arrow(
                Expr::app(Expr::app(bv(4), bv(1)), bv(0)),
                Expr::app(
                    Expr::app(Expr::app(eq_v, bv(4)), Expr::app(bv(3), bv(2))),
                    Expr::app(bv(3), bv(1)),
                ),
            ),
            BinderInfo::Default,
        ),
        BinderInfo::Default,
    );
    // Quot.lift.{u, v} {α : Sort u} {r : α → α → Prop} {β : Sort v} (f : α → β)
    //   : (∀ a b : α, r a b → f a = f b) → @Quot.{u} α r → β
    let lift_ty = pi(
        "α",
        share(&sort_u),
        pi(
            "r",
            share(&rel),
            pi(
                "β",
                sort_v,
                pi(
                    "f",
                    arrow(bv(2), bv(1)),
                    arrow(
                        sanity,
                        arrow(Expr::app(Expr::app(share(&quot_u), bv(4)), bv(3)), bv(3)),
                    ),
                    BinderInfo::Default,
                ),
                BinderInfo::Implicit,
            ),
            BinderInfo::Implicit,
        ),
        BinderInfo::Implicit,
    );
    // (∀ a : α, β (@Quot.mk.{u} α r a)) → ∀ q : @Quot.{u} α r, β q
    let all_quot = pi(
        "a",
        bv(2),
        Expr::app(bv(1), Expr::app(Expr::app(Expr::app(quot_mk_u, bv(3)), bv(2)), bv(0))),
        BinderInfo::Default,
    );
    let q_pi = pi(
        "q",
        Expr::app(Expr::app(share(&quot_u), bv(3)), bv(2)),
        Expr::app(bv(2), bv(0)),
        BinderInfo::Default,
    );
    let ind_body_e = pi("mk", all_quot, q_pi, BinderInfo::Default);
    // Quot.ind.{u} {α : Sort u} {r : α → α → Prop} {β : @Quot.{u} α r → Prop}
    //   : (∀ a : α, β (@Quot.mk.{u} α r a)) → ∀ q : @Quot.{u} α r, β q
    let ind_ty = pi(
        "α",
        sort_u,
        pi(
            "r",
            rel,
            pi(
                "β",
                arrow(Expr::app(Expr::app(quot_u, bv(1)), bv(0)), prop),
                ind_body_e,
                BinderInfo::Implicit,
            ),
            BinderInfo::Implicit,
        ),
        BinderInfo::Implicit,
    );

    let mut lps1: Vec<Arc<Name>> = Vec::new();
    lps1.push(share(&u_name));
    let mut lps2: Vec<Arc<Name>> = Vec::new();
    lps2.push(share(&u_name));
    let mut lps3: Vec<Arc<Name>> = Vec::new();
    lps3.push(share(&u_name));
    lps3.push(v_name);
    let mut lps4: Vec<Arc<Name>> = Vec::new();
    lps4.push(u_name);
    proof {
        assert(names_view(lps1@) =~= seq![univ_u()]);
        assert(names_view(lps2@) =~= seq![univ_u()]);
        assert(names_view(lps3@) =~= seq![univ_u(), univ_v()]);
        assert(names_view(lps4@) =~= seq![univ_u()]);
    }
    let c1 = quot_const(nm("Quot"), lps1, quot_ty, QuotKind::Type);
    let c2 = quot_const(nm2("Quot", "mk"), lps2, mk_ty, QuotKind::Ctor);
    let c3 = quot_const(nm2("Quot", "lift"), lps3, lift_ty, QuotKind::Lift);
    let c4 = quot_const(nm2("Quot", "ind"), lps4, ind_ty, QuotKind::Ind);
    proof {
        reveal_strlit("Quot");
        reveal_strlit("mk");
        reveal_strlit("lift");
        reveal_strlit("ind");
        assert(quot_decl(Some(c1), sname("Quot"@), QuotKind::Type, seq![univ_u()], quot_type()));
        assert(quot_decl(
            Some(c2),
            sname2("Quot"@, "mk"@),
            QuotKind::Ctor,
            seq![univ_u()],
            quot_mk_type(),
        ));
        assert(quot_decl(
            Some(c3),
            sname2("Quot"@, "lift"@),
            QuotKind::Lift,
            seq![univ_u(), univ_v()],
            quot_lift_type(),
        ));
        assert(quot_decl(
            Some(c4),
            sname2("Quot"@, "ind"@),
            QuotKind::Ind,
            seq![univ_u()],
            quot_ind_type(),
        ));
    }
    let mut out: Vec<ConstantInfo> = Vec::new();
    out.push(c1);
    out.push(c2);
    out.push(c3);
    out.push(c4);
    Ok(out)
}

} // verus!
