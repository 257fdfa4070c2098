//! Every failure the kernel can report. Untrusted input maps to `Err`,
//! never a panic.
use crate::name::{name_text, Name};
use std::sync::Arc;
use vstd::prelude::*;

verus! {

/// Every failure the kernel can report.
#[derive(Debug, Clone, PartialEq, Eq)]
pub enum KernelError {
    /// The term store's id space is exhausted.
    BankExhausted,
    /// Recursion guard cap (guard.rs).
    DeepRecursion,
    UnknownConstant(Arc<Name>),
    AlreadyDeclared(Arc<Name>),
    DuplicateUnivParam(Arc<Name>),
    HasMetavars(Arc<Name>),
    HasFVars(Arc<Name>),
    UnivParamArityMismatch { name: Arc<Name> },
    UnsafeConstInSafeDecl(Arc<Name>),
    /// "type expected"
    TypeExpected,
    /// "function expected"
    FunctionExpected,
    AppTypeMismatch,
    LetTypeMismatch,
    InvalidProj,
    /// A loose bound variable escaped.
    LooseBVar,
    /// A level or expression metavariable reached the checker.
    MetavarEncountered,
    DefTypeMismatch(Arc<Name>),
    TheoremTypeNotProp(Arc<Name>),
    /// `what` is a short static reason like "positivity".
    InvalidInductive { name: Arc<Name>, what: &'static str },
    InvalidQuot { what: &'static str },
    ConstructorMismatch(Arc<Name>),
    RecursorMismatch(Arc<Name>),
    MissingConstant(Arc<Name>),
}

/// The message of an error: a short sentence, names in single quotes.
pub open spec fn error_text(e: KernelError) -> Seq<char> {
    match e {
        KernelError::BankExhausted => "term bank id space exhausted"@,
        KernelError::DeepRecursion => "maximum recursion depth exceeded"@,
        KernelError::UnknownConstant(n) => "unknown constant '"@ + name_text(n@) + "'"@,
        KernelError::AlreadyDeclared(n) => "'"@ + name_text(n@) + "' has already been declared"@,
        KernelError::DuplicateUnivParam(n) => "duplicate universe parameter '"@ + name_text(n@)
            + "'"@,
        KernelError::HasMetavars(n) => "declaration '"@ + name_text(n@)
            + "' contains metavariables"@,
        KernelError::HasFVars(n) => "declaration '"@ + name_text(n@) + "' contains free variables"@,
        KernelError::UnivParamArityMismatch { name } => "incorrect number of universe levels at '"@
            + name_text(name@) + "'"@,
        KernelError::UnsafeConstInSafeDecl(n) => "invalid declaration, unsafe constant '"@
            + name_text(n@) + "' used in safe declaration"@,
        KernelError::TypeExpected => "type expected"@,
        KernelError::FunctionExpected => "function expected"@,
        KernelError::AppTypeMismatch => "application type mismatch"@,
        KernelError::LetTypeMismatch => "invalid let declaration, type mismatch"@,
        KernelError::InvalidProj => "invalid projection"@,
        KernelError::LooseBVar => "loose bound variable"@,
        KernelError::MetavarEncountered => "declaration contains metavariables"@,
        KernelError::DefTypeMismatch(n) => "definition type mismatch at '"@ + name_text(n@) + "'"@,
        KernelError::TheoremTypeNotProp(n) => "theorem type of '"@ + name_text(n@)
            + "' is not a proposition"@,
        KernelError::InvalidInductive { name, what } => "invalid inductive '"@ + name_text(name@)
            + "': "@ + what@,
        KernelError::InvalidQuot { what } => "invalid quotient init: "@ + what@,
        KernelError::ConstructorMismatch(n) => "invalid constructor '"@ + name_text(n@) + "'"@,
        KernelError::RecursorMismatch(n) => "invalid recursor '"@ + name_text(n@) + "'"@,
        KernelError::MissingConstant(n) => "constant '"@ + name_text(n@)
            + "' missing from module set"@,
    }
}

/// `before`, the rendering of `n`, then `after`.
fn around(before: &str, n: &Name, after: &str) -> (r: String)
    ensures
        r@ == before@ + name_text(n@) + after@,
{
    let mut s = String::new();
    s.append(before);
    let t = n.to_string();
    s.append(t.as_str());
    s.append(after);
    proof {
        assert(s@ =~= before@ + name_text(n@) + after@);
    }
    s
}

/// `before` then `after`.
fn joined(before: &str, after: &str) -> (r: String)
    ensures
        r@ == before@ + after@,
{
    let mut s = String::new();
    s.append(before);
    s.append(after);
    proof {
        assert(s@ =~= before@ + after@);
    }
    s
}

fn text(t: &str) -> (r: String)
    ensures
        r@ == t@,
{
    let mut s = String::new();
    s.append(t);
    proof {
        assert(s@ =~= t@);
    }
    s
}

impl KernelError {
    /// Whether this is the recursion-guard rejection.
    pub fn is_deep_recursion(&self) -> (r: bool)
        ensures
            r == (*self is DeepRecursion),
    {
        match self {
            KernelError::DeepRecursion => true,
            _ => false,
        }
    }

    /// The message of the error (`error_text`).
    pub fn to_string(&self) -> (r: String)
        ensures
            r@ == error_text(*self),
    {
        match self {
            KernelError::BankExhausted => text("term bank id space exhausted"),
            KernelError::DeepRecursion => text("maximum recursion depth exceeded"),
            KernelError::UnknownConstant(n) => around("unknown constant '", n, "'"),
            KernelError::AlreadyDeclared(n) => around("'", n, "' has already been declared"),
            KernelError::DuplicateUnivParam(n) => around("duplicate universe parameter '", n, "'"),
            KernelError::HasMetavars(n) => around("declaration '", n, "' contains metavariables"),
            KernelError::HasFVars(n) => around("declaration '", n, "' contains free variables"),
            KernelError::UnivParamArityMismatch { name } => around(
                "incorrect number of universe levels at '",
                name,
                "'",
            ),
            KernelError::UnsafeConstInSafeDecl(n) => around(
                "invalid declaration, unsafe constant '",
                n,
                "' used in safe declaration",
            ),
            KernelError::TypeExpected => text("type expected"),
            KernelError::FunctionExpected => text("function expected"),
            KernelError::AppTypeMismatch => text("application type mismatch"),
            KernelError::LetTypeMismatch => text("invalid let declaration, type mismatch"),
            KernelError::InvalidProj => text("invalid projection"),
            KernelError::LooseBVar => text("loose bound variable"),
            KernelError::MetavarEncountered => text("declaration contains metavariables"),
            KernelError::DefTypeMismatch(n) => around("definition type mismatch at '", n, "'"),
            KernelError::TheoremTypeNotProp(n) => around(
                "theorem type of '",
                n,
                "' is not a proposition",
            ),
            KernelError::InvalidInductive { name, what } => {
                let mut s = around("invalid inductive '", name, "': ");
                s.append(what);
                s
            },
            KernelError::InvalidQuot { what } => joined("invalid quotient init: ", what),
            KernelError::ConstructorMismatch(n) => around("invalid constructor '", n, "'"),
            KernelError::RecursorMismatch(n) => around("invalid recursor '", n, "'"),
            KernelError::MissingConstant(n) => around("constant '", n, "' missing from module set"),
        }
    }
}

} // verus!
