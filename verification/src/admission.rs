//! Admission of declarations: an axiom, definition, theorem or opaque
//! constant is checked against the environment by a fresh type checker
//! and then added; the quotient declaration adds the quotient constants.
use crate::checker::{
    const_in_scope, const_type, inferred_shape, names_unknown, rigid_pair, sort_in_scope, stuck,
    unknown_error, TypeChecker,
};
use crate::equiv::{entails, lemma_entails_nothing_const};
use crate::expr::{expr_height, SExpr};
use crate::guard::MAX_REC_DEPTH;
use crate::decl::{ConstantInfo, ConstantVal, Declaration, DefinitionSafety};
use crate::env::{
    check_constant_val_pre, check_no_metavar_no_fvar, const_name, declares, keeps_names, lookup, put,
    repeated_later, Environment,
};
use crate::error::KernelError;
use crate::expr_laws::{expr_has_expr_mvar, expr_has_fvar, expr_has_level_mvar};
use crate::level::{names_view, SLevel};
use crate::name::NameComp;
use crate::inductive_add::{add_inductive, declares_inductive, grows};
use crate::quot::{add_quot, eq_shape_ok, is_eq_error, quot_added, quot_constants, quot_constants_ok};
use crate::shared::share;
use std::sync::Arc;
use vstd::prelude::*;

verus! {

/// What a checked declaration admits: its constants, and whether it
/// initializes the quotient.
#[derive(Debug)]
pub struct Admitted {
    pub survivors: Vec<ConstantInfo>,
    pub quot_init: bool,
}

/// The checks on a constant's name, universe parameters and type that
/// need no type checker all pass: the name is new, no universe parameter
/// repeats, and the type has no metavariable and no free variable.
pub open spec fn constant_val_pre_ok(cs: Seq<ConstantInfo>, v: ConstantVal) -> bool {
    &&& !declares(cs, v.name@)
    &&& forall|i: int|
        0 <= i < v.level_params@.len() ==> !repeated_later(names_view(v.level_params@), i)
    &&& !(expr_has_expr_mvar(v.ty@) || expr_has_level_mvar(v.ty@) || expr_has_fvar(v.ty@))
}

/// The error the first failing check on a constant's name, universe
/// parameters and type gives: `AlreadyDeclared`, then
/// `DuplicateUnivParam` (for the first repeated parameter), then
/// `HasMetavars`, then `HasFVars`.
pub open spec fn pre_error(cs: Seq<ConstantInfo>, v: ConstantVal, e: KernelError) -> bool {
    if declares(cs, v.name@) {
        e matches KernelError::AlreadyDeclared(m) && m@ == v.name@
    } else if exists|i: int|
        0 <= i < v.level_params@.len() && repeated_later(names_view(v.level_params@), i) {
        e matches KernelError::DuplicateUnivParam(p) && exists|i: int|
            0 <= i < v.level_params@.len() && repeated_later(names_view(v.level_params@), i) && p@
                == v.level_params@[i]@ && forall|k: int|
                0 <= k < i ==> !repeated_later(names_view(v.level_params@), k)
    } else if expr_has_expr_mvar(v.ty@) || expr_has_level_mvar(v.ty@) {
        e matches KernelError::HasMetavars(m) && m@ == v.name@
    } else {
        e matches KernelError::HasFVars(m) && m@ == v.name@
    }
}

/// A definition that is not marked safe.
pub open spec fn unsafe_defn(d: Declaration) -> bool {
    d matches Declaration::Defn(v) && v.safety != DefinitionSafety::Safe
}

/// A single declaration that the checks accept without reducing
/// anything: its header checks pass and a definition is safe; its type is
/// a sort over its own universe parameters or a constant, given without
/// universe levels, whose declared type is a sort (for a theorem, a
/// constant whose declared type is `Prop`); and the value of a
/// definition, theorem or opaque constant is a constant, given without
/// universe levels, declared with exactly the declared type.
pub open spec fn simply_typed(cs: Seq<ConstantInfo>, d: Declaration) -> bool {
    let v = declared_val(d);
    &&& is_single(d)
    &&& constant_val_pre_ok(cs, v)
    &&& !unsafe_defn(d)
    &&& (sort_in_scope(v.ty@, names_view(v.level_params@)) || (const_in_scope(cs, v.ty@)
        && const_type(cs, v.ty@) is Sort))
    &&& (d is Thm ==> const_in_scope(cs, v.ty@) && const_type(cs, v.ty@) == SExpr::Sort(SLevel::Zero))
    &&& (d is Axiom || (declared_value(d) matches Some(x) && const_in_scope(cs, x) && const_type(cs, x)
        == v.ty@ && expr_height(v.ty@) < MAX_REC_DEPTH))
}

/// A single declaration whose header checks pass, safe if a
/// definition, whose type is a constant given without universe levels
/// whose own declared type is no sort and does not reduce: its type is
/// not a type.
pub open spec fn type_not_a_type(cs: Seq<ConstantInfo>, qi: bool, d: Declaration) -> bool {
    let v = declared_val(d);
    &&& is_single(d)
    &&& constant_val_pre_ok(cs, v)
    &&& !unsafe_defn(d)
    &&& const_in_scope(cs, v.ty@)
    &&& stuck(cs, qi, const_type(cs, v.ty@))
    &&& !(const_type(cs, v.ty@) is Sort)
}

/// A definition or opaque constant whose header checks pass, safe if a
/// definition, whose type is a sort over its own universe parameters or
/// a constant whose declared type is a sort, and whose value is a
/// constant, given without universe levels, that `cs` does not declare.
pub open spec fn value_unknown(cs: Seq<ConstantInfo>, d: Declaration) -> bool {
    let v = declared_val(d);
    &&& is_single(d)
    &&& (d is Defn || d is Opaque)
    &&& constant_val_pre_ok(cs, v)
    &&& !unsafe_defn(d)
    &&& (sort_in_scope(v.ty@, names_view(v.level_params@)) || (const_in_scope(cs, v.ty@)
        && const_type(cs, v.ty@) is Sort))
    &&& declared_value(d) matches Some(x) && x matches SExpr::Const(n, ls) && ls.len() == 0
        && lookup(cs, n) is None
}

/// A definition or opaque constant whose header checks pass, safe if a
/// definition, whose type is a constant with a sort for its type, and
/// whose value is a constant, given without universe levels, whose
/// declared type and the declared type of the definition are a
/// `rigid_pair`: the value does not have the declared type.
pub open spec fn value_type_mismatch(cs: Seq<ConstantInfo>, qi: bool, d: Declaration) -> bool {
    let v = declared_val(d);
    &&& is_single(d)
    &&& (d is Defn || d is Opaque)
    &&& constant_val_pre_ok(cs, v)
    &&& !unsafe_defn(d)
    &&& const_in_scope(cs, v.ty@)
    &&& const_type(cs, v.ty@) is Sort
    &&& declared_value(d) matches Some(x) && const_in_scope(cs, x) && rigid_pair(
        cs,
        qi,
        const_type(cs, x),
        v.ty@,
    )
}

/// A theorem whose header checks pass and whose type is a constant,
/// given without universe levels, whose declared type is a sort other
/// than `Prop`: its type is not a proposition.
pub open spec fn thm_type_not_prop(cs: Seq<ConstantInfo>, d: Declaration) -> bool {
    let v = declared_val(d);
    &&& d is Thm
    &&& constant_val_pre_ok(cs, v)
    &&& const_in_scope(cs, v.ty@)
    &&& const_type(cs, v.ty@) is Sort
    &&& !(const_type(cs, v.ty@)->Sort_0 is Zero)
}

/// The declarations checked one constant at a time by the type checker.
pub open spec fn is_single(d: Declaration) -> bool {
    d is Axiom || d is Defn || d is Thm || d is Opaque
}

/// The constant a single declaration declares.
pub open spec fn declared_constant(d: Declaration) -> ConstantInfo {
    match d {
        Declaration::Axiom(v) => ConstantInfo::Axiom(v),
        Declaration::Defn(v) => ConstantInfo::Defn(v),
        Declaration::Thm(v) => ConstantInfo::Thm(v),
        Declaration::Opaque(v) => ConstantInfo::Opaque(v),
        _ => arbitrary(),
    }
}

/// The header of a single declaration.
pub open spec fn declared_val(d: Declaration) -> ConstantVal {
    declared_constant(d).spec_constant_val()
}

/// The value of a definition, theorem or opaque constant.
pub open spec fn declared_value(d: Declaration) -> Option<crate::expr::SExpr> {
    match d {
        Declaration::Defn(v) => Some(v.value@),
        Declaration::Thm(v) => Some(v.value@),
        Declaration::Opaque(v) => Some(v.value@),
        _ => None,
    }
}

/// The constant's type is a type (checked and normalized to a sort).
fn check_constant_val_sort(checker: &mut TypeChecker, v: &ConstantVal) -> (r: Result<
    (),
    KernelError,
>)
    requires
        old(checker).wf(),
    ensures
        final(checker).wf(),
        final(checker).env() == old(checker).env(),
        final(checker).depth() == old(checker).depth(),
        old(checker).depth() < MAX_REC_DEPTH && sort_in_scope(v.ty@, names_view(v.level_params@))
            ==> r is Ok,
        old(checker).depth() < MAX_REC_DEPTH && const_in_scope(old(checker).env(), v.ty@)
            && const_type(old(checker).env(), v.ty@) is Sort ==> r is Ok,
        old(checker).depth() + 1 < MAX_REC_DEPTH && const_in_scope(old(checker).env(), v.ty@) && stuck(
            old(checker).env(),
            old(checker).quot_init(),
            const_type(old(checker).env(), v.ty@),
        ) && !(const_type(old(checker).env(), v.ty@) is Sort) ==> r matches Err(
            KernelError::TypeExpected,
        ),
        old(checker).depth() < MAX_REC_DEPTH && const_in_scope(old(checker).env(), v.ty@) && const_type(
            old(checker).env(),
            v.ty@,
        ) is Sort ==> (r is Ok ==> final(checker).eqs() == old(checker).eqs()),
{
    let sort = checker.check(&v.ty, v.level_params.as_slice())?;
    proof {
        reveal(inferred_shape);
    }
    checker.ensure_sort(&sort)?;
    Ok(())
}

/// The type checker's verdict on the value of a definition, theorem or
/// opaque constant: its type, checked under the constant's universe
/// parameters, must be definitionally equal to the declared type, else
/// `DefTypeMismatch`.
fn check_value_type(checker: &mut TypeChecker, v: &ConstantVal, value: &Arc<crate::expr::Expr>) -> (r:
    Result<(), KernelError>)
    requires
        old(checker).wf(),
    ensures
        final(checker).wf(),
        final(checker).env() == old(checker).env(),
        final(checker).depth() == old(checker).depth(),
        old(checker).depth() < MAX_REC_DEPTH && const_in_scope(old(checker).env(), value@)
            && const_type(old(checker).env(), value@) == v.ty@ && expr_height(v.ty@) < MAX_REC_DEPTH
            ==> r is Ok,
        old(checker).depth() < MAX_REC_DEPTH && names_unknown(old(checker).env(), value@)
            ==> unknown_error(r, value@),
        old(checker).depth() < MAX_REC_DEPTH && old(checker).eqs().len() == 0 && const_in_scope(
            old(checker).env(),
            value@,
        ) && rigid_pair(
            old(checker).env(),
            old(checker).quot_init(),
            const_type(old(checker).env(), value@),
            v.ty@,
        ) ==> !(r is Ok),
{
    let val_type = checker.check(value, v.level_params.as_slice())?;
    proof {
        if checker.eqs().len() == 0 && val_type@ is Const && entails(checker.eqs(), val_type@, v.ty@) {
            assert(checker.eqs() =~= Seq::<(SExpr, SExpr)>::empty());
            lemma_entails_nothing_const(val_type@, v.ty@);
        }
    }
    if !checker.is_def_eq(&val_type, &v.ty)? {
        return Err(KernelError::DefTypeMismatch(share(&v.name)));
    }
    Ok(())
}

/// Checks a single declaration against `env` and gives the constant to
/// admit. The name must be new, the universe parameters distinct, the
/// type free of metavariables and free variables and a type; a
/// definition must be safe; a theorem's type must be a proposition; the
/// value of a definition or theorem must be free of metavariables and
/// free variables; and a value must have the declared type. The
/// quotient declaration gives the four quotient constants once `Eq` has
/// the expected shape, and nothing on an environment already
/// quotient-initialized; either way the environment is to be marked
/// quotient-initialized.
pub fn check_declaration(env: &Environment, d: Declaration) -> (r: Result<Admitted, KernelError>)
    requires
        !(d is Inductive),
    ensures
        d matches Declaration::Defn(v) ==> (v.safety != DefinitionSafety::Safe ==> (match r {
            Err(KernelError::UnsafeConstInSafeDecl(n)) => n@ == v.val.name@,
            _ => false,
        })),
        is_single(d) && !constant_val_pre_ok(env.constants(), declared_val(d)) ==> r is Err,
        is_single(d) && declares(env.constants(), declared_val(d).name@) ==> r is Err,
        is_single(d) && !unsafe_defn(d) && !constant_val_pre_ok(env.constants(), declared_val(d))
            ==> (r matches Err(e) && pre_error(env.constants(), declared_val(d), e)),
        simply_typed(env.constants(), d) ==> r is Ok,
        type_not_a_type(env.constants(), env.quot_init(), d) ==> r matches Err(
            KernelError::TypeExpected,
        ),
        value_unknown(env.constants(), d) ==> unknown_error(r, declared_value(d)->Some_0),
        value_type_mismatch(env.constants(), env.quot_init(), d) ==> !(r is Ok),
        thm_type_not_prop(env.constants(), d) ==> (r matches Err(KernelError::TheoremTypeNotProp(m))
            && m@ == declared_val(d).name@),
        is_single(d) ==> (r matches Ok(a) ==> constant_val_pre_ok(env.constants(), declared_val(d))
            && a.survivors@ == seq![declared_constant(d)] && !a.quot_init),
        d is Quot ==> (r is Ok <==> (env.quot_init() || eq_shape_ok(env.constants()))),
        d is Quot && env.quot_init() ==> (r matches Ok(a) && a.survivors@.len() == 0 && a.quot_init),
        d is Quot && !env.quot_init() ==> (r matches Ok(a) ==> a.quot_init && quot_constants_ok(
            a.survivors@,
        )) && (r matches Err(e) ==> is_eq_error(e)),
        r is Ok && (d is Defn || d is Thm) ==> !(expr_has_expr_mvar(declared_value(d)->0)
            || expr_has_level_mvar(declared_value(d)->0) || expr_has_fvar(
            declared_value(d)->0,
        )),
{
    let info = match d {
        Declaration::Axiom(v) => {
            check_constant_val_pre(env, &v.val)?;
            let mut checker = TypeChecker::new(env);
            check_constant_val_sort(&mut checker, &v.val)?;
            ConstantInfo::Axiom(v)
        },
        Declaration::Defn(v) => {
            if v.safety != DefinitionSafety::Safe {
                return Err(KernelError::UnsafeConstInSafeDecl(share(&v.val.name)));
            }
            check_constant_val_pre(env, &v.val)?;
            let mut checker = TypeChecker::new(env);
            check_constant_val_sort(&mut checker, &v.val)?;
            check_no_metavar_no_fvar(&v.val.name, &v.value)?;
            check_value_type(&mut checker, &v.val, &v.value)?;
            ConstantInfo::Defn(v)
        },
        Declaration::Thm(v) => {
            check_constant_val_pre(env, &v.val)?;
            let mut checker = TypeChecker::new(env);
            check_constant_val_sort(&mut checker, &v.val)?;
            if !checker.is_prop(&v.val.ty)? {
                return Err(KernelError::TheoremTypeNotProp(share(&v.val.name)));
            }
            check_no_metavar_no_fvar(&v.val.name, &v.value)?;
            check_value_type(&mut checker, &v.val, &v.value)?;
            ConstantInfo::Thm(v)
        },
        Declaration::Opaque(v) => {
            check_constant_val_pre(env, &v.val)?;
            let mut checker = TypeChecker::new(env);
            check_constant_val_sort(&mut checker, &v.val)?;
            check_value_type(&mut checker, &v.val, &v.value)?;
            ConstantInfo::Opaque(v)
        },
        Declaration::Quot => {
            if env.quot_initialized() {
                return Ok(Admitted { survivors: Vec::new(), quot_init: true });
            }
            let survivors = quot_constants(env)?;
            return Ok(Admitted { survivors, quot_init: true });
        },
        Declaration::Inductive { .. } => {
            proof {
                assert(false);
            }
            return Err(KernelError::DeepRecursion);
        },
    };
    let mut survivors: Vec<ConstantInfo> = Vec::new();
    survivors.push(info);
    proof {
        assert(survivors@ =~= seq![declared_constant(d)]);
    }
    Ok(Admitted { survivors, quot_init: false })
}

impl Environment {
    /// Checks `d` against this environment and admits it: a single
    /// declaration's constant is added under its (new) name; the quotient
    /// declaration adds the quotient constants (`add_quot`); an inductive
    /// block adds its types, constructors and recursors after the
    /// constants already there. On failure nothing changes.
    pub fn add_decl(&mut self, d: Declaration) -> (r: Result<(), KernelError>)
        ensures
            r is Err ==> final(self).constants() == old(self).constants() && final(self).quot_init()
                == old(self).quot_init(),
            is_single(d) && r is Ok ==> constant_val_pre_ok(old(self).constants(), declared_val(d))
                && final(self).constants() == put(old(self).constants(), declared_constant(d))
                && final(self).quot_init() == old(self).quot_init(),
            is_single(d) && r is Ok ==> forall|n: Seq<NameComp>|
                #[trigger] lookup(final(self).constants(), n) == if n == const_name(
                    declared_constant(d),
                ) {
                    Some(declared_constant(d))
                } else {
                    lookup(old(self).constants(), n)
                },
            is_single(d) && !constant_val_pre_ok(old(self).constants(), declared_val(d)) ==> r is Err,
            is_single(d) && !unsafe_defn(d) && !constant_val_pre_ok(
                old(self).constants(),
                declared_val(d),
            ) ==> (r matches Err(e) && pre_error(old(self).constants(), declared_val(d), e)),
            d matches Declaration::Defn(v) ==> (v.safety != DefinitionSafety::Safe ==> (match r {
                Err(KernelError::UnsafeConstInSafeDecl(n)) => n@ == v.val.name@,
                _ => false,
            })),
            simply_typed(old(self).constants(), d) ==> r is Ok,
            type_not_a_type(old(self).constants(), old(self).quot_init(), d) ==> r matches Err(
                KernelError::TypeExpected,
            ),
            value_unknown(old(self).constants(), d) ==> unknown_error(r, declared_value(d)->Some_0),
            value_type_mismatch(old(self).constants(), old(self).quot_init(), d) ==> r is Err,
            thm_type_not_prop(old(self).constants(), d) ==> (r matches Err(
                KernelError::TheoremTypeNotProp(m),
            ) && m@ == declared_val(d).name@),
            d is Quot ==> final(self).quot_init() || r is Err,
            d is Quot && old(self).quot_init() ==> r is Ok && final(self).constants() == old(
                self,
            ).constants() && final(self).quot_init(),
            d is Quot && !old(self).quot_init() ==> (r is Ok <==> eq_shape_ok(old(self).constants())),
            d is Quot && !old(self).quot_init() && r is Ok ==> quot_added(
                old(self).constants(),
                final(self).constants(),
            ),
            d is Inductive && r is Ok ==> grows(final(self).constants(), old(self).constants())
                && final(self).quot_init() == old(self).quot_init(),
            r is Ok ==> keeps_names(final(self).constants(), old(self).constants()),
            d matches Declaration::Inductive { types, .. } ==> (r is Ok ==> forall|i: int|
                0 <= i < types@.len() ==> declares_inductive(
                    final(self).constants(),
                    (#[trigger] types@[i]).name@,
                )),
    {
        if let Declaration::Quot = d {
            let r = add_quot(self);
            proof {
                if r is Ok {
                    assert forall|n: Seq<NameComp>| declares(old(self).constants(), n) implies #[trigger] declares(
                        self.constants(),
                        n,
                    ) by {
                        if !old(self).quot_init() && !crate::quot::is_quot_name(n) {
                            assert(lookup(self.constants(), n) == lookup(old(self).constants(), n));
                        }
                    }
                }
            }
            return r;
        }
        if let Declaration::Inductive { lparams, nparams, types, is_unsafe } = d {
            let r = add_inductive(self, lparams, nparams, types, is_unsafe);
            proof {
                if r is Ok {
                    assert forall|n: Seq<NameComp>| declares(old(self).constants(), n) implies #[trigger] declares(
                        self.constants(),
                        n,
                    ) by {
                        let k = choose|k: int| 0 <= k < old(self).constants().len() && const_name(
                            #[trigger] old(self).constants()[k],
                        ) == n;
                        assert(self.constants()[k] == old(self).constants()[k]);
                    }
                }
            }
            return r;
        }
        let admitted = check_declaration(self, d)?;
        let ghost s = admitted.survivors@;
        let mut survivors = admitted.survivors;
        proof {
            assert(survivors@.len() == 1);
        }
        let ci = survivors.pop().unwrap();
        self.add_core(ci);
        proof {
            assert forall|n: Seq<NameComp>| declares(old(self).constants(), n) implies #[trigger] declares(
                self.constants(),
                n,
            ) by {
                assert(lookup(self.constants(), n) is Some);
            }
        }
        Ok(())
    }
}

} // verus!
