//! Constant declarations as the kernel sees them, and their structural
//! equality over every field.
use crate::error::KernelError;
use crate::expr::{expr_fits, has_syntax, Expr, SExpr};
use crate::guard::RecGuard;
use crate::level::names_view;
use crate::name::{Name, NameComp};
use crate::num::Nat;
use std::sync::Arc;
use vstd::prelude::*;

verus! {

/// How eagerly a definition unfolds.
#[derive(Debug, Clone, Copy, PartialEq, Eq, Structural)]
pub enum ReducibilityHints {
    Opaque,
    Abbrev,
    Regular(u32),
}

/// Safety of a definition.
#[derive(Debug, Clone, Copy, PartialEq, Eq, Structural)]
pub enum DefinitionSafety {
    Unsafe,
    Safe,
    Partial,
}

/// The four constants of the quotient extension.
#[derive(Debug, Clone, Copy, PartialEq, Eq, Structural)]
pub enum QuotKind {
    Type,
    Ctor,
    Lift,
    Ind,
}

/// What every constant has: its name, universe parameters and type.
#[derive(Debug, Clone)]
pub struct ConstantVal {
    pub name: Arc<Name>,
    pub level_params: Vec<Arc<Name>>,
    pub ty: Arc<Expr>,
}

#[derive(Debug, Clone)]
pub struct AxiomVal {
    pub val: ConstantVal,
    pub is_unsafe: bool,
}

#[derive(Debug, Clone)]
pub struct DefinitionVal {
    pub val: ConstantVal,
    pub value: Arc<Expr>,
    pub hints: ReducibilityHints,
    pub safety: DefinitionSafety,
    pub all: Vec<Arc<Name>>,
}

#[derive(Debug, Clone)]
pub struct TheoremVal {
    pub val: ConstantVal,
    pub value: Arc<Expr>,
    pub all: Vec<Arc<Name>>,
}

#[derive(Debug, Clone)]
pub struct OpaqueVal {
    pub val: ConstantVal,
    pub value: Arc<Expr>,
    pub is_unsafe: bool,
    pub all: Vec<Arc<Name>>,
}

#[derive(Debug, Clone)]
pub struct QuotVal {
    pub val: ConstantVal,
    pub kind: QuotKind,
}

#[derive(Debug, Clone)]
pub struct InductiveVal {
    pub val: ConstantVal,
    pub num_params: Nat,
    pub num_indices: Nat,
    pub all: Vec<Arc<Name>>,
    pub ctors: Vec<Arc<Name>>,
    pub num_nested: Nat,
    pub is_rec: bool,
    pub is_unsafe: bool,
    pub is_reflexive: bool,
}

#[derive(Debug, Clone)]
pub struct ConstructorVal {
    pub val: ConstantVal,
    pub induct: Arc<Name>,
    pub cidx: Nat,
    pub num_params: Nat,
    pub num_fields: Nat,
    pub is_unsafe: bool,
}

/// One reduction rule of a recursor: its constructor, field count and
/// right-hand side.
#[derive(Debug, Clone)]
pub struct RecursorRule {
    pub ctor: Arc<Name>,
    pub nfields: Nat,
    pub rhs: Arc<Expr>,
}

#[derive(Debug, Clone)]
pub struct RecursorVal {
    pub val: ConstantVal,
    pub all: Vec<Arc<Name>>,
    pub num_params: Nat,
    pub num_indices: Nat,
    pub num_motives: Nat,
    pub num_minors: Nat,
    pub rules: Vec<RecursorRule>,
    pub k: bool,
    pub is_unsafe: bool,
}

/// A constant of the environment; the variant order is the on-disk
/// constructor tag order.
#[derive(Debug, Clone)]
pub enum ConstantInfo {
    Axiom(AxiomVal),
    Defn(DefinitionVal),
    Thm(TheoremVal),
    Opaque(OpaqueVal),
    Quot(QuotVal),
    Induct(InductiveVal),
    Ctor(ConstructorVal),
    Rec(RecursorVal),
}

/// One type of a mutual inductive block: name, type and constructors
/// (name and type each).
#[derive(Debug, Clone)]
pub struct InductiveType {
    pub name: Arc<Name>,
    pub ty: Arc<Expr>,
    pub ctors: Vec<(Arc<Name>, Arc<Expr>)>,
}

/// What is handed to the kernel for admission.
#[derive(Debug, Clone)]
pub enum Declaration {
    Axiom(AxiomVal),
    Defn(DefinitionVal),
    Thm(TheoremVal),
    Opaque(OpaqueVal),
    Quot,
    /// A mutual inductive block: its universe parameters, parameter
    /// count and types.
    Inductive { lparams: Vec<Arc<Name>>, nparams: Nat, types: Vec<InductiveType>, is_unsafe: bool },
}

impl ConstantInfo {
    /// The common part of every constant.
    pub open spec fn spec_constant_val(self) -> ConstantVal {
        match self {
            ConstantInfo::Axiom(v) => v.val,
            ConstantInfo::Defn(v) => v.val,
            ConstantInfo::Thm(v) => v.val,
            ConstantInfo::Opaque(v) => v.val,
            ConstantInfo::Quot(v) => v.val,
            ConstantInfo::Induct(v) => v.val,
            ConstantInfo::Ctor(v) => v.val,
            ConstantInfo::Rec(v) => v.val,
        }
    }

    /// The one-word kind label.
    pub open spec fn kind_text(self) -> Seq<char> {
        match self {
            ConstantInfo::Axiom(_) => "axiom"@,
            ConstantInfo::Defn(_) => "def"@,
            ConstantInfo::Thm(_) => "thm"@,
            ConstantInfo::Opaque(_) => "opaque"@,
            ConstantInfo::Quot(_) => "quot"@,
            ConstantInfo::Induct(_) => "induct"@,
            ConstantInfo::Ctor(_) => "ctor"@,
            ConstantInfo::Rec(_) => "rec"@,
        }
    }

    /// The common part of every constant.
    pub fn constant_val(&self) -> (r: &ConstantVal)
        ensures
            *r == self.spec_constant_val(),
    {
        match self {
            ConstantInfo::Axiom(v) => &v.val,
            ConstantInfo::Defn(v) => &v.val,
            ConstantInfo::Thm(v) => &v.val,
            ConstantInfo::Opaque(v) => &v.val,
            ConstantInfo::Quot(v) => &v.val,
            ConstantInfo::Induct(v) => &v.val,
            ConstantInfo::Ctor(v) => &v.val,
            ConstantInfo::Rec(v) => &v.val,
        }
    }

    /// The constant's name.
    pub fn name(&self) -> (r: &Arc<Name>)
        ensures
            *r == self.spec_constant_val().name,
    {
        &self.constant_val().name
    }

    /// The one-word kind label: `axiom`, `def`, `thm`, `opaque`, `quot`,
    /// `induct`, `ctor` or `rec`.
    pub fn kind(&self) -> (r: &'static str)
        ensures
            r@ == self.kind_text(),
    {
        match self {
            ConstantInfo::Axiom(_) => "axiom",
            ConstantInfo::Defn(_) => "def",
            ConstantInfo::Thm(_) => "thm",
            ConstantInfo::Opaque(_) => "opaque",
            ConstantInfo::Quot(_) => "quot",
            ConstantInfo::Induct(_) => "induct",
            ConstantInfo::Ctor(_) => "ctor",
            ConstantInfo::Rec(_) => "rec",
        }
    }
}

// ---------------------------------------------------------------------
// Equality over every field.
// ---------------------------------------------------------------------

/// Equality of the common parts: name, universe parameters, type.
pub open spec fn constant_val_same(a: ConstantVal, b: ConstantVal) -> bool {
    &&& a.name@ == b.name@
    &&& names_view(a.level_params@) == names_view(b.level_params@)
    &&& a.ty@ == b.ty@
}

/// The view of a recursor rule.
pub open spec fn rule_view(r: RecursorRule) -> (Seq<NameComp>, nat, SExpr) {
    (r.ctor@, r.nfields@, r.rhs@)
}

pub open spec fn rules_view(rs: Seq<RecursorRule>) -> Seq<(Seq<NameComp>, nat, SExpr)> {
    Seq::new(rs.len(), |i: int| rule_view(rs[i]))
}

/// Equality of two constants over every field of every kind; different
/// kinds are unequal.
pub open spec fn constant_info_same(a: ConstantInfo, b: ConstantInfo) -> bool {
    match (a, b) {
        (ConstantInfo::Axiom(x), ConstantInfo::Axiom(y)) => constant_val_same(x.val, y.val)
            && x.is_unsafe == y.is_unsafe,
        (ConstantInfo::Defn(x), ConstantInfo::Defn(y)) => constant_val_same(x.val, y.val)
            && x.value@ == y.value@ && x.hints == y.hints && x.safety == y.safety && names_view(
            x.all@,
        ) == names_view(y.all@),
        (ConstantInfo::Thm(x), ConstantInfo::Thm(y)) => constant_val_same(x.val, y.val) && x.value@
            == y.value@ && names_view(x.all@) == names_view(y.all@),
        (ConstantInfo::Opaque(x), ConstantInfo::Opaque(y)) => constant_val_same(x.val, y.val)
            && x.value@ == y.value@ && x.is_unsafe == y.is_unsafe && names_view(x.all@)
            == names_view(y.all@),
        (ConstantInfo::Quot(x), ConstantInfo::Quot(y)) => constant_val_same(x.val, y.val) && x.kind
            == y.kind,
        (ConstantInfo::Induct(x), ConstantInfo::Induct(y)) => constant_val_same(x.val, y.val)
            && x.num_params@ == y.num_params@ && x.num_indices@ == y.num_indices@ && names_view(
            x.all@,
        ) == names_view(y.all@) && names_view(x.ctors@) == names_view(y.ctors@) && x.num_nested@
            == y.num_nested@ && x.is_rec == y.is_rec && x.is_unsafe == y.is_unsafe
            && x.is_reflexive == y.is_reflexive,
        (ConstantInfo::Ctor(x), ConstantInfo::Ctor(y)) => constant_val_same(x.val, y.val)
            && x.induct@ == y.induct@ && x.cidx@ == y.cidx@ && x.num_params@ == y.num_params@
            && x.num_fields@ == y.num_fields@ && x.is_unsafe == y.is_unsafe,
        (ConstantInfo::Rec(x), ConstantInfo::Rec(y)) => constant_val_same(x.val, y.val)
            && names_view(x.all@) == names_view(y.all@) && x.num_params@ == y.num_params@
            && x.num_indices@ == y.num_indices@ && x.num_motives@ == y.num_motives@
            && x.num_minors@ == y.num_minors@ && x.k == y.k && x.is_unsafe == y.is_unsafe
            && rules_view(x.rules@) == rules_view(y.rules@),
        _ => false,
    }
}

/// Whether any expression of the constant holds a syntax value (compared
/// by identity, so equality is decided exactly only without them).
pub open spec fn constant_info_has_syntax(a: ConstantInfo) -> bool {
    has_syntax(a.spec_constant_val().ty@) || match a {
        ConstantInfo::Defn(x) => has_syntax(x.value@),
        ConstantInfo::Thm(x) => has_syntax(x.value@),
        ConstantInfo::Opaque(x) => has_syntax(x.value@),
        ConstantInfo::Rec(x) => exists|i: int|
            0 <= i < x.rules@.len() && has_syntax((#[trigger] x.rules@[i]).rhs@),
        _ => false,
    }
}

/// Whether every term of `a` (its type, value and recursor rules) fits
/// under the guard `g`.
pub open spec fn constant_info_fits(g: RecGuard, a: ConstantInfo) -> bool {
    expr_fits(g, a.spec_constant_val().ty@) && match a {
        ConstantInfo::Defn(x) => expr_fits(g, x.value@),
        ConstantInfo::Thm(x) => expr_fits(g, x.value@),
        ConstantInfo::Opaque(x) => expr_fits(g, x.value@),
        ConstantInfo::Rec(x) => forall|i: int|
            0 <= i < x.rules@.len() ==> expr_fits(g, (#[trigger] x.rules@[i]).rhs@),
        _ => true,
    }
}

/// Whether two constants are of the same kind.
pub open spec fn same_kind(a: ConstantInfo, b: ConstantInfo) -> bool {
    match (a, b) {
        (ConstantInfo::Axiom(_), ConstantInfo::Axiom(_)) => true,
        (ConstantInfo::Defn(_), ConstantInfo::Defn(_)) => true,
        (ConstantInfo::Thm(_), ConstantInfo::Thm(_)) => true,
        (ConstantInfo::Opaque(_), ConstantInfo::Opaque(_)) => true,
        (ConstantInfo::Quot(_), ConstantInfo::Quot(_)) => true,
        (ConstantInfo::Induct(_), ConstantInfo::Induct(_)) => true,
        (ConstantInfo::Ctor(_), ConstantInfo::Ctor(_)) => true,
        (ConstantInfo::Rec(_), ConstantInfo::Rec(_)) => true,
        _ => false,
    }
}

/// Element-wise equality of two name lists.
pub fn names_eq(a: &Vec<Arc<Name>>, b: &Vec<Arc<Name>>) -> (r: bool)
    ensures
        r == (names_view(a@) == names_view(b@)),
{
    if a.len() != b.len() {
        proof {
            assert(names_view(a@).len() != names_view(b@).len());
        }
        return false;
    }
    let mut i: usize = 0;
    while i < a.len()
        invariant
            a@.len() == b@.len(),
            i <= a@.len(),
            forall|j: int| 0 <= j < i ==> names_view(a@)[j] == names_view(b@)[j],
        decreases a@.len() - i,
    {
        if !a[i].equal(&b[i]) {
            proof {
                assert(names_view(a@)[i as int] != names_view(b@)[i as int]);
            }
            return false;
        }
        i = i + 1;
    }
    proof {
        assert(names_view(a@) =~= names_view(b@));
    }
    true
}

/// Equality of the common parts; the type is compared structurally under
/// the guard.
pub fn constant_val_eq(a: &ConstantVal, b: &ConstantVal, g: &mut RecGuard) -> (r: Result<
    bool,
    KernelError,
>)
    ensures
        *final(g) == *old(g),
        r matches Ok(x) ==> (x ==> constant_val_same(*a, *b)) && (!has_syntax(a.ty@) ==> x
            == constant_val_same(*a, *b)),
        r matches Err(e) ==> e is DeepRecursion,
        expr_fits(*old(g), a.ty@) ==> r is Ok,
{
    if !a.name.equal(&b.name) || !names_eq(&a.level_params, &b.level_params) {
        return Ok(false);
    }
    Expr::structural_eq(&a.ty, &b.ty, g)
}

/// Structural equality of two recursor rule lists.
fn rules_eq(a: &Vec<RecursorRule>, b: &Vec<RecursorRule>, g: &mut RecGuard) -> (r: Result<
    bool,
    KernelError,
>)
    ensures
        *final(g) == *old(g),
        r matches Ok(x) ==> (x ==> rules_view(a@) == rules_view(b@)) && ((forall|i: int|
            0 <= i < a@.len() ==> !has_syntax((#[trigger] a@[i]).rhs@)) ==> x == (rules_view(a@)
            == rules_view(b@))),
        r matches Err(e) ==> e is DeepRecursion,
        (forall|i: int| 0 <= i < a@.len() ==> expr_fits(*old(g), (#[trigger] a@[i]).rhs@)) ==> r is Ok,
{
    if a.len() != b.len() {
        proof {
            assert(rules_view(a@).len() != rules_view(b@).len());
        }
        return Ok(false);
    }
    let mut i: usize = 0;
    while i < a.len()
        invariant
            a@.len() == b@.len(),
            i <= a@.len(),
            *g == *old(g),
            forall|j: int| 0 <= j < i ==> rules_view(a@)[j] == rules_view(b@)[j],
        decreases a@.len() - i,
    {
        let ra = &a[i];
        let rb = &b[i];
        if !ra.ctor.equal(&rb.ctor) || !ra.nfields.beq(&rb.nfields) {
            proof {
                assert(rules_view(a@)[i as int] != rules_view(b@)[i as int]);
            }
            return Ok(false);
        }
        let same = Expr::structural_eq(&ra.rhs, &rb.rhs, g)?;
        if !same {
            proof {
                if !has_syntax(a@[i as int].rhs@) {
                    assert(rules_view(a@)[i as int] != rules_view(b@)[i as int]);
                }
            }
            return Ok(false);
        }
        i = i + 1;
    }
    proof {
        assert(rules_view(a@) =~= rules_view(b@));
    }
    Ok(true)
}

/// Structural equality over every field of two constants; different kinds
/// are unequal, never an error.
pub fn constant_info_eq(a: &ConstantInfo, b: &ConstantInfo, g: &mut RecGuard) -> (r: Result<
    bool,
    KernelError,
>)
    ensures
        *final(g) == *old(g),
        r matches Ok(x) ==> (x ==> constant_info_same(*a, *b)) && (!constant_info_has_syntax(*a)
            ==> x == constant_info_same(*a, *b)),
        r matches Err(e) ==> e is DeepRecursion,
        !same_kind(*a, *b) ==> r == Ok::<bool, KernelError>(false),
        constant_info_fits(*old(g), *a) ==> r is Ok,
{
    match (a, b) {
        (ConstantInfo::Axiom(x), ConstantInfo::Axiom(y)) => {
            Ok(constant_val_eq(&x.val, &y.val, g)? && x.is_unsafe == y.is_unsafe)
        },
        (ConstantInfo::Defn(x), ConstantInfo::Defn(y)) => {
            if !constant_val_eq(&x.val, &y.val, g)? {
                return Ok(false);
            }
            Ok(Expr::structural_eq(&x.value, &y.value, g)? && x.hints == y.hints && x.safety
                == y.safety && names_eq(&x.all, &y.all))
        },
        (ConstantInfo::Thm(x), ConstantInfo::Thm(y)) => {
            if !constant_val_eq(&x.val, &y.val, g)? {
                return Ok(false);
            }
            Ok(Expr::structural_eq(&x.value, &y.value, g)? && names_eq(&x.all, &y.all))
        },
        (ConstantInfo::Opaque(x), ConstantInfo::Opaque(y)) => {
            if !constant_val_eq(&x.val, &y.val, g)? {
                return Ok(false);
            }
            Ok(Expr::structural_eq(&x.value, &y.value, g)? && x.is_unsafe == y.is_unsafe
                && names_eq(&x.all, &y.all))
        },
        (ConstantInfo::Quot(x), ConstantInfo::Quot(y)) => {
            Ok(constant_val_eq(&x.val, &y.val, g)? && x.kind == y.kind)
        },
        (ConstantInfo::Induct(x), ConstantInfo::Induct(y)) => {
            Ok(constant_val_eq(&x.val, &y.val, g)? && x.num_params.beq(&y.num_params)
                && x.num_indices.beq(&y.num_indices) && names_eq(&x.all, &y.all) && names_eq(
                &x.ctors,
                &y.ctors,
            ) && x.num_nested.beq(&y.num_nested) && x.is_rec == y.is_rec && x.is_unsafe
                == y.is_unsafe && x.is_reflexive == y.is_reflexive)
        },
        (ConstantInfo::Ctor(x), ConstantInfo::Ctor(y)) => {
            Ok(constant_val_eq(&x.val, &y.val, g)? && x.induct.equal(&y.induct) && x.cidx.beq(
                &y.cidx,
            ) && x.num_params.beq(&y.num_params) && x.num_fields.beq(&y.num_fields)
                && x.is_unsafe == y.is_unsafe)
        },
        (ConstantInfo::Rec(x), ConstantInfo::Rec(y)) => {
            if !constant_val_eq(&x.val, &y.val, g)? || !names_eq(&x.all, &y.all)
                || !x.num_params.beq(&y.num_params) || !x.num_indices.beq(&y.num_indices)
                || !x.num_motives.beq(&y.num_motives) || !x.num_minors.beq(&y.num_minors) || x.k
                != y.k || x.is_unsafe != y.is_unsafe {
                return Ok(false);
            }
            rules_eq(&x.rules, &y.rules, g)
        },
        _ => Ok(false),
    }
}

} // verus!
