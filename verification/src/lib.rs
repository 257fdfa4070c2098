//! Verified core of a Lean 4 kernel: arbitrary-precision literals,
//! hierarchical names, universe levels, expressions and their
//! substitutions, declarations, local contexts, the environment's
//! name-indexed store, the type checker (weak head normalization,
//! inference and definitional equality), admission of declarations,
//! of the quotient extension and of mutual and nested inductive blocks
//! with their generated recursors, the equivalence cache, hash-consing
//! of levels and quotient reduction.
mod admission;
mod cache;
mod checker;
mod decl;
mod env;
mod equiv;
mod error;
mod expr;
mod expr_laws;
mod guard;
mod hashing;
mod inductive;
mod inductive_add;
mod intern;
mod level;
mod level_bounds;
mod level_laws;
mod local_ctx;
mod name;
mod num;
mod quot;
mod quot_red;
mod replay;
mod shared;
mod subst;
mod syntax;
mod tc;

pub use admission::{check_declaration, Admitted};
pub use checker::{inferred_shape, whnf_core_shape, whnf_leaf, TypeChecker};
pub use decl::{
    constant_info_eq, constant_val_eq, names_eq, AxiomVal, ConstantInfo, ConstantVal,
    ConstructorVal, Declaration, DefinitionSafety, DefinitionVal, InductiveType, InductiveVal,
    OpaqueVal, QuotKind, QuotVal, RecursorRule, RecursorVal, ReducibilityHints, TheoremVal,
};
pub use env::{
    check_constant_val_pre, check_duplicated_univ_params, check_name, check_no_metavar_no_fvar,
    Environment, EnvironmentError,
};
pub use equiv::UnionFind;
pub use error::KernelError;
pub use expr::{
    data_value_eq, kvmap_eq, BinderInfo, DataFields, DataValue, Expr, ExprData, ExprNode, KVMap,
    Literal, SDataValue, SExpr, SLiteral, LOOSE_BVAR_SAT,
};
pub use guard::{RecGuard, MAX_REC_DEPTH};
pub use inductive::{
    append_after_str, append_index_after, consume_type_annotations, erase_macro_scopes_aux,
    expr_contains_new_type, expr_has_ind_occ, has_loose_bvar, has_loose_bvars_in_domain,
    has_macro_scopes, head_const, infer_implicit, is_explicit_bi, is_geq, lparams_to_levels,
    mk_rec_name, mk_simple_name, name_append, nested_prefix, peel_forall, replace_prefix,
};
pub use intern::Interner;
pub use level::{Level, SLevel};
pub use local_ctx::{FVarIdGen, LocalContext, LocalDecl};
pub use name::{Name, NameComp};
pub use num::{Int, Nat};
pub use quot::add_quot;
pub use quot_red::{quot_major_positions, quot_reduce_rec, quot_reduce_with};
pub use replay::{eq_name, exprs_eq, is_partial, replay, used_constants, ReplayError, ReplayStats};
pub use subst::{
    abstract_fvars, instantiate, instantiate_core, instantiate_level_params, instantiate_rev,
    lift_loose_bvars,
};
pub use syntax::{Preresolved, SourceInfo, Substring, Syntax};
pub use tc::{
    binder_dom_body, binder_full, cheap_beta_reduce, compare_hints, const_levels_of_head,
    get_major_induct, get_rec_rule_for, get_undef_param, info_has_value, info_hints,
    info_is_unsafe, info_value, is_const_named, is_constructor_app, nat_binop,
    nat_lit_to_constructor, string_lit_to_constructor, to_lbool, Lbool,
};
