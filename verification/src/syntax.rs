//! Lean syntax trees, as carried by `ofSyntax` expression metadata. The
//! kernel never inspects them; it only carries them through and compares
//! them by identity.
use crate::name::Name;
use crate::num::Nat;
use std::sync::Arc;
use vstd::prelude::*;

verus! {

/// A slice of a source string, by byte positions.
#[derive(Debug, Clone)]
pub struct Substring {
    pub str: String,
    pub start_pos: Nat,
    pub stop_pos: Nat,
}

/// Source position metadata on syntax.
#[derive(Debug, Clone)]
pub enum SourceInfo {
    Original { leading: Substring, pos: Nat, trailing: Substring, end_pos: Nat },
    Synthetic { pos: Nat, end_pos: Nat, canonical: bool },
    NoInfo,
}

/// A possible binding of an identifier in a quotation.
#[derive(Debug, Clone)]
pub enum Preresolved {
    Namespace(Arc<Name>),
    Decl { name: Arc<Name>, fields: Vec<String> },
}

/// Lean syntax tree; `kind` is a syntax node kind name.
#[allow(inconsistent_fields)]
#[derive(Debug)]
pub enum Syntax {
    Missing,
    Node { info: SourceInfo, kind: Arc<Name>, args: Vec<Arc<Syntax>> },
    Atom { info: SourceInfo, val: String },
    Ident { info: SourceInfo, raw_val: Substring, val: Arc<Name>, preresolved: Vec<Preresolved> },
}

} // verus!
