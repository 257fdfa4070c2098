//! Kernel expressions. Every node caches a packed data word (hash,
//! approximate depth, four occurrence flags and a loose-bound-variable
//! range) computed at construction from the children's cached words, so
//! it is always in sync with the node: the fields of `Expr` are private
//! and the smart constructors are the only way to build one.
//!
//! An expression is viewed as an `SExpr` tree. The cached word is the
//! function `expr_fields` of that view; the laws in `expr_laws.rs` relate
//! it to the plain meaning of each field.
use crate::error::KernelError;
use crate::guard::{RecGuard, MAX_REC_DEPTH};
use crate::hashing::{chars_hash, mix, str_hash};
use crate::level::{level_hash, level_height, levels_view, spec_has_mvar, spec_has_param, Level, SLevel};
use crate::name::{name_hash, Name, NameComp};
use crate::num::{Int, Nat};
use crate::shared::{same_node, share};
use crate::syntax::Syntax;
use std::sync::Arc;
use vstd::prelude::*;

verus! {

/// Binder annotation.
#[derive(Debug, Clone, Copy, PartialEq, Eq, Structural, Hash)]
pub enum BinderInfo {
    Default,
    Implicit,
    StrictImplicit,
    InstImplicit,
}

/// Literal.
#[derive(Debug)]
pub enum Literal {
    NatVal(Nat),
    StrVal(String),
}

/// The view of a literal.
pub enum SLiteral {
    NatVal(nat),
    StrVal(Seq<char>),
}

impl View for Literal {
    type V = SLiteral;

    open spec fn view(&self) -> SLiteral {
        match self {
            Literal::NatVal(n) => SLiteral::NatVal(n@),
            Literal::StrVal(s) => SLiteral::StrVal(s@),
        }
    }
}

/// A value in expression metadata.
#[derive(Debug)]
pub enum DataValue {
    OfString(String),
    OfBool(bool),
    OfName(Arc<Name>),
    OfNat(Nat),
    OfInt(Int),
    OfSyntax(Arc<Syntax>),
}

/// The view of a metadata value; syntax is carried as it is.
pub enum SDataValue {
    OfString(Seq<char>),
    OfBool(bool),
    OfName(Seq<NameComp>),
    OfNat(nat),
    OfInt(int),
    OfSyntax(Syntax),
}

pub open spec fn data_value_view(v: DataValue) -> SDataValue {
    match v {
        DataValue::OfString(s) => SDataValue::OfString(s@),
        DataValue::OfBool(b) => SDataValue::OfBool(b),
        DataValue::OfName(n) => SDataValue::OfName(n@),
        DataValue::OfNat(n) => SDataValue::OfNat(n@),
        DataValue::OfInt(i) => SDataValue::OfInt(i@),
        DataValue::OfSyntax(s) => SDataValue::OfSyntax(*s),
    }
}

impl View for DataValue {
    type V = SDataValue;

    open spec fn view(&self) -> SDataValue {
        data_value_view(*self)
    }
}

/// Expression metadata: an ordered list of entries.
#[derive(Debug)]
pub struct KVMap(pub Vec<(Arc<Name>, DataValue)>);

pub open spec fn kv_entry_view(p: (Arc<Name>, DataValue)) -> (Seq<NameComp>, SDataValue) {
    (p.0@, p.1@)
}

impl View for KVMap {
    type V = Seq<(Seq<NameComp>, SDataValue)>;

    open spec fn view(&self) -> Seq<(Seq<NameComp>, SDataValue)> {
        self.0@.map_values(|p: (Arc<Name>, DataValue)| kv_entry_view(p))
    }
}

/// Kernel expression node.
#[derive(Debug)]
pub enum ExprNode {
    BVar { idx: Nat },
    FVar { id: Arc<Name> },
    MVar { id: Arc<Name> },
    Sort { level: Arc<Level> },
    Const { name: Arc<Name>, levels: Vec<Arc<Level>> },
    App { f: Arc<Expr>, arg: Arc<Expr> },
    Lam { binder_name: Arc<Name>, binder_type: Arc<Expr>, body: Arc<Expr>, binder_info: BinderInfo },
    ForallE {
        binder_name: Arc<Name>,
        binder_type: Arc<Expr>,
        body: Arc<Expr>,
        binder_info: BinderInfo,
    },
    LetE { decl_name: Arc<Name>, ty: Arc<Expr>, value: Arc<Expr>, body: Arc<Expr>, non_dep: bool },
    Lit(Literal),
    MData { data: KVMap, expr: Arc<Expr> },
    Proj { struct_name: Arc<Name>, idx: Nat, structure: Arc<Expr> },
}

/// An expression: a node and its cached data word.
#[derive(Debug)]
pub struct Expr {
    pub(crate) data: ExprData,
    pub(crate) node: ExprNode,
}

/// The view of an expression: the same tree with names, levels, numbers
/// and strings by their views.
pub enum SExpr {
    BVar(nat),
    FVar(Seq<NameComp>),
    MVar(Seq<NameComp>),
    Sort(SLevel),
    Const(Seq<NameComp>, Seq<SLevel>),
    App(Box<SExpr>, Box<SExpr>),
    Lam(Seq<NameComp>, Box<SExpr>, Box<SExpr>, BinderInfo),
    ForallE(Seq<NameComp>, Box<SExpr>, Box<SExpr>, BinderInfo),
    LetE(Seq<NameComp>, Box<SExpr>, Box<SExpr>, Box<SExpr>, bool),
    Lit(SLiteral),
    MData(Seq<(Seq<NameComp>, SDataValue)>, Box<SExpr>),
    Proj(Seq<NameComp>, nat, Box<SExpr>),
}

pub(crate) open spec fn node_view(n: ExprNode) -> SExpr
    decreases n,
{
    match n {
        ExprNode::BVar { idx } => SExpr::BVar(idx@),
        ExprNode::FVar { id } => SExpr::FVar(id@),
        ExprNode::MVar { id } => SExpr::MVar(id@),
        ExprNode::Sort { level } => SExpr::Sort(level@),
        ExprNode::Const { name, levels } => SExpr::Const(name@, levels_view(levels@)),
        ExprNode::App { f, arg } => SExpr::App(
            Box::new(node_view((*f).node)),
            Box::new(node_view((*arg).node)),
        ),
        ExprNode::Lam { binder_name, binder_type, body, binder_info } => SExpr::Lam(
            binder_name@,
            Box::new(node_view((*binder_type).node)),
            Box::new(node_view((*body).node)),
            binder_info,
        ),
        ExprNode::ForallE { binder_name, binder_type, body, binder_info } => SExpr::ForallE(
            binder_name@,
            Box::new(node_view((*binder_type).node)),
            Box::new(node_view((*body).node)),
            binder_info,
        ),
        ExprNode::LetE { decl_name, ty, value, body, non_dep } => SExpr::LetE(
            decl_name@,
            Box::new(node_view((*ty).node)),
            Box::new(node_view((*value).node)),
            Box::new(node_view((*body).node)),
            non_dep,
        ),
        ExprNode::Lit(l) => SExpr::Lit(l@),
        ExprNode::MData { data, expr } => SExpr::MData(data@, Box::new(node_view((*expr).node))),
        ExprNode::Proj { struct_name, idx, structure } => SExpr::Proj(
            struct_name@,
            idx@,
            Box::new(node_view((*structure).node)),
        ),
    }
}

impl View for ExprNode {
    type V = SExpr;

    closed spec fn view(&self) -> SExpr {
        node_view(*self)
    }
}

/// The view of a node.
pub(crate) broadcast proof fn lemma_node_view(n: ExprNode)
    ensures
        #[trigger] n@ == node_view(n),
{
}

impl View for Expr {
    type V = SExpr;

    closed spec fn view(&self) -> SExpr {
        node_view(self.node)
    }
}

/// The view of an expression is the view of its node.
pub(crate) broadcast proof fn lemma_expr_view(e: Expr)
    ensures
        #[trigger] e@ == node_view(e.node),
{
}

// ---------------------------------------------------------------------
// The data word.
// ---------------------------------------------------------------------

/// The loose-bound-variable range saturates here; a saturated range
/// bounds nothing.
pub const LOOSE_BVAR_SAT: u32 = 1048575;

pub const TAG_CONST: u64 = 5;

pub const TAG_BVAR: u64 = 7;

pub const TAG_SORT: u64 = 11;

pub const TAG_FVAR: u64 = 13;

pub const TAG_MVAR: u64 = 17;

pub const TAG_LIT: u64 = 3;

/// The fields packed into a data word.
pub struct DataFields {
    pub hash: u32,
    pub depth: u8,
    pub has_fvar: bool,
    pub has_expr_mvar: bool,
    pub has_level_mvar: bool,
    pub has_level_param: bool,
    pub range: u32,
}

pub open spec fn bit_of(b: bool) -> u64 {
    if b {
        1
    } else {
        0
    }
}

/// Bits 0..32 hash, 32..40 depth, 40..44 the flags, 44..64 the range.
pub open spec fn word_of(h: u32, d: u8, b0: u64, b1: u64, b2: u64, b3: u64, r: u32) -> u64 {
    ((((((h as u64) | ((d as u64) << 32u64)) | (b0 << 40u64)) | (b1 << 41u64)) | (b2 << 42u64)) | (
    b3 << 43u64)) | ((r as u64) << 44u64)
}

pub open spec fn pack_word(f: DataFields) -> u64 {
    word_of(
        f.hash,
        f.depth,
        bit_of(f.has_fvar),
        bit_of(f.has_expr_mvar),
        bit_of(f.has_level_mvar),
        bit_of(f.has_level_param),
        f.range,
    )
}

pub open spec fn unpack_word(w: u64) -> DataFields {
    DataFields {
        hash: w as u32,
        depth: ((w >> 32u64) & 0xffu64) as u8,
        has_fvar: (w >> 40u64) & 1u64 == 1u64,
        has_expr_mvar: (w >> 41u64) & 1u64 == 1u64,
        has_level_mvar: (w >> 42u64) & 1u64 == 1u64,
        has_level_param: (w >> 43u64) & 1u64 == 1u64,
        range: (w >> 44u64) as u32,
    }
}

proof fn lemma_word_fields(h: u32, d: u8, b0: u64, b1: u64, b2: u64, b3: u64, r: u32)
    by (bit_vector)
    requires
        b0 <= 1,
        b1 <= 1,
        b2 <= 1,
        b3 <= 1,
        r <= 1048575,
    ensures
        word_of(h, d, b0, b1, b2, b3, r) as u32 == h,
        ((word_of(h, d, b0, b1, b2, b3, r) >> 32u64) & 0xffu64) as u8 == d,
        (word_of(h, d, b0, b1, b2, b3, r) >> 40u64) & 1u64 == b0,
        (word_of(h, d, b0, b1, b2, b3, r) >> 41u64) & 1u64 == b1,
        (word_of(h, d, b0, b1, b2, b3, r) >> 42u64) & 1u64 == b2,
        (word_of(h, d, b0, b1, b2, b3, r) >> 43u64) & 1u64 == b3,
        (word_of(h, d, b0, b1, b2, b3, r) >> 44u64) as u32 == r,
{
}

proof fn lemma_word_split(w: u64)
    by (bit_vector)
    ensures
        word_of(
            w as u32,
            ((w >> 32u64) & 0xffu64) as u8,
            (w >> 40u64) & 1u64,
            (w >> 41u64) & 1u64,
            (w >> 42u64) & 1u64,
            (w >> 43u64) & 1u64,
            (w >> 44u64) as u32,
        ) == w,
        (w >> 40u64) & 1u64 <= 1,
        (w >> 41u64) & 1u64 <= 1,
        (w >> 42u64) & 1u64 <= 1,
        (w >> 43u64) & 1u64 <= 1,
{
}

/// Unpacking a packed word gives its fields back.
pub proof fn lemma_unpack_pack(f: DataFields)
    requires
        f.range <= LOOSE_BVAR_SAT,
    ensures
        unpack_word(pack_word(f)) == f,
{
    lemma_word_fields(
        f.hash,
        f.depth,
        bit_of(f.has_fvar),
        bit_of(f.has_expr_mvar),
        bit_of(f.has_level_mvar),
        bit_of(f.has_level_param),
        f.range,
    );
}

/// Every bit of a word is a field: words with the same fields are equal.
pub proof fn lemma_unpack_injective(w1: u64, w2: u64)
    requires
        unpack_word(w1) == unpack_word(w2),
    ensures
        w1 == w2,
{
    lemma_word_split(w1);
    lemma_word_split(w2);
    let a = unpack_word(w1);
    assert(((w1 >> 40u64) & 1u64) == ((w2 >> 40u64) & 1u64));
    assert(((w1 >> 41u64) & 1u64) == ((w2 >> 41u64) & 1u64));
    assert(((w1 >> 42u64) & 1u64) == ((w2 >> 42u64) & 1u64));
    assert(((w1 >> 43u64) & 1u64) == ((w2 >> 43u64) & 1u64));
}

/// Packed per-node metadata.
#[derive(Debug, Clone, Copy, PartialEq, Eq, Structural)]
pub struct ExprData(pub(crate) u64);

impl View for ExprData {
    type V = DataFields;

    closed spec fn view(&self) -> DataFields {
        unpack_word(self.0)
    }
}

impl ExprData {
    /// The packed word.
    pub closed spec fn word(self) -> u64 {
        self.0
    }

    /// The view is the word, field by field.
    pub proof fn lemma_view(self)
        ensures
            self@ == unpack_word(self.word()),
    {
    }

    /// Two data words are equal exactly when their fields are.
    pub proof fn lemma_eq(self, other: ExprData)
        ensures
            (self == other) == (self@ == other@),
    {
        if self@ == other@ {
            lemma_unpack_injective(self.0, other.0);
        }
    }
}

pub open spec fn trunc32(h: u64) -> u32 {
    (h & 0xffff_ffffu64) as u32
}

/// `r` capped at the saturation value.
pub open spec fn sat_range(r: nat) -> u32 {
    if r < LOOSE_BVAR_SAT {
        r as u32
    } else {
        LOOSE_BVAR_SAT
    }
}

pub open spec fn max_u32(a: u32, b: u32) -> u32 {
    if a >= b {
        a
    } else {
        b
    }
}

pub open spec fn max_u8(a: u8, b: u8) -> u8 {
    if a >= b {
        a
    } else {
        b
    }
}

/// A binder closes one level of a range: one less, floored at zero; a
/// saturated range stays saturated.
pub open spec fn spec_close_one(r: u32) -> u32 {
    if r >= LOOSE_BVAR_SAT {
        LOOSE_BVAR_SAT
    } else if r == 0 {
        0
    } else {
        (r - 1) as u32
    }
}

/// One more than the deepest child, saturating at 255.
pub open spec fn spec_depth_of(m: u8) -> u8 {
    if m < 255 {
        (m + 1) as u8
    } else {
        255
    }
}

/// The fields `pack` stores.
pub open spec fn packed_fields(
    hash64: u64,
    range: u32,
    depth: u8,
    has_fvar: bool,
    has_expr_mvar: bool,
    has_level_mvar: bool,
    has_level_param: bool,
) -> DataFields {
    DataFields {
        hash: trunc32(hash64),
        depth,
        has_fvar,
        has_expr_mvar,
        has_level_mvar,
        has_level_param,
        range: sat_range(range as nat),
    }
}

/// The data of an application node from its children's data.
pub open spec fn app_fields(f: DataFields, a: DataFields) -> DataFields {
    let depth = spec_depth_of(max_u8(f.depth, a.depth));
    packed_fields(
        mix(depth as u64, mix(f.hash as u64, a.hash as u64)),
        max_u32(f.range, a.range),
        depth,
        f.has_fvar || a.has_fvar,
        f.has_expr_mvar || a.has_expr_mvar,
        f.has_level_mvar || a.has_level_mvar,
        f.has_level_param || a.has_level_param,
    )
}

/// The data of a binder node from its type's and body's data: the body
/// lives one binder deeper.
pub open spec fn binder_fields(t: DataFields, b: DataFields) -> DataFields {
    let depth = spec_depth_of(max_u8(t.depth, b.depth));
    packed_fields(
        mix(depth as u64, mix(t.hash as u64, b.hash as u64)),
        max_u32(t.range, spec_close_one(b.range)),
        depth,
        t.has_fvar || b.has_fvar,
        t.has_expr_mvar || b.has_expr_mvar,
        t.has_level_mvar || b.has_level_mvar,
        t.has_level_param || b.has_level_param,
    )
}

/// The data of a `let` node: type and value in the outer scope, body
/// one binder deeper.
pub open spec fn let_fields(t: DataFields, v: DataFields, b: DataFields) -> DataFields {
    let depth = spec_depth_of(max_u8(max_u8(t.depth, v.depth), b.depth));
    packed_fields(
        mix(depth as u64, mix(t.hash as u64, mix(v.hash as u64, b.hash as u64))),
        max_u32(max_u32(t.range, v.range), spec_close_one(b.range)),
        depth,
        t.has_fvar || v.has_fvar || b.has_fvar,
        t.has_expr_mvar || v.has_expr_mvar || b.has_expr_mvar,
        t.has_level_mvar || v.has_level_mvar || b.has_level_mvar,
        t.has_level_param || v.has_level_param || b.has_level_param,
    )
}

/// The data of a one-child wrapper node (`mdata`, `proj`) whose hash is
/// `h`.
pub open spec fn wrap_fields(c: DataFields, h: u64) -> DataFields {
    packed_fields(
        h,
        c.range,
        spec_depth_of(c.depth),
        c.has_fvar,
        c.has_expr_mvar,
        c.has_level_mvar,
        c.has_level_param,
    )
}

/// The loose range of a bound variable: `idx + 1`, capped.
pub open spec fn bvar_range(idx: nat) -> u32 {
    sat_range(idx + 1)
}

/// A natural number reduced to its low 64 bits.
pub open spec fn low64(n: nat) -> u64 {
    (n % 0x1_0000_0000_0000_0000) as u64
}

/// Hash of a literal.
pub open spec fn literal_hash(l: SLiteral) -> u64 {
    match l {
        SLiteral::NatVal(n) => mix(1, low64(n)),
        SLiteral::StrVal(s) => mix(2, str_hash(s)),
    }
}

/// The level hashes folded from the first.
pub open spec fn levels_hash(ls: Seq<SLevel>) -> u64
    decreases ls.len(),
{
    if ls.len() == 0 {
        0
    } else {
        mix(levels_hash(ls.drop_last()), level_hash(ls.last()))
    }
}

pub open spec fn levels_have_mvar(ls: Seq<SLevel>) -> bool {
    exists|i: int| 0 <= i < ls.len() && spec_has_mvar(#[trigger] ls[i])
}

pub open spec fn levels_have_param(ls: Seq<SLevel>) -> bool {
    exists|i: int| 0 <= i < ls.len() && spec_has_param(#[trigger] ls[i])
}

/// The cached data of an expression.
pub open spec fn expr_fields(e: SExpr) -> DataFields
    decreases e,
{
    match e {
        SExpr::BVar(i) => packed_fields(
            mix(TAG_BVAR, low64(i)),
            bvar_range(i),
            1,
            false,
            false,
            false,
            false,
        ),
        SExpr::FVar(n) => packed_fields(mix(TAG_FVAR, name_hash(n)), 0, 1, true, false, false, false),
        SExpr::MVar(n) => packed_fields(mix(TAG_MVAR, name_hash(n)), 0, 1, false, true, false, false),
        SExpr::Sort(l) => packed_fields(
            mix(TAG_SORT, level_hash(l)),
            0,
            1,
            false,
            false,
            spec_has_mvar(l),
            spec_has_param(l),
        ),
        SExpr::Const(n, ls) => packed_fields(
            mix(TAG_CONST, mix(name_hash(n), levels_hash(ls))),
            0,
            1,
            false,
            false,
            levels_have_mvar(ls),
            levels_have_param(ls),
        ),
        SExpr::App(f, a) => app_fields(expr_fields(*f), expr_fields(*a)),
        SExpr::Lam(_, t, b, _) => binder_fields(expr_fields(*t), expr_fields(*b)),
        SExpr::ForallE(_, t, b, _) => binder_fields(expr_fields(*t), expr_fields(*b)),
        SExpr::LetE(_, t, v, b, _) => let_fields(expr_fields(*t), expr_fields(*v), expr_fields(*b)),
        SExpr::Lit(l) => packed_fields(mix(TAG_LIT, literal_hash(l)), 0, 1, false, false, false, false),
        SExpr::MData(_, x) => {
            let c = expr_fields(*x);
            wrap_fields(c, mix(spec_depth_of(c.depth) as u64, c.hash as u64))
        },
        SExpr::Proj(n, i, x) => {
            let c = expr_fields(*x);
            wrap_fields(
                c,
                mix(spec_depth_of(c.depth) as u64, mix(name_hash(n), mix(low64(i), c.hash as u64))),
            )
        },
    }
}

pub proof fn lemma_fields_range(e: SExpr)
    ensures
        expr_fields(e).range <= LOOSE_BVAR_SAT,
{
}

impl Expr {
    #[verifier::type_invariant]
    closed spec fn data_in_sync(self) -> bool {
        self.data@ == expr_fields(self@)
    }
}

fn flag_bit(b: bool) -> (r: u64)
    ensures
        r == bit_of(b),
{
    if b {
        1
    } else {
        0
    }
}

impl ExprData {
    fn pack(
        hash64: u64,
        loose_bvar_range: u32,
        approx_depth: u8,
        has_fvar: bool,
        has_expr_mvar: bool,
        has_level_mvar: bool,
        has_level_param: bool,
    ) -> (r: ExprData)
        ensures
            r@ == packed_fields(
                hash64,
                loose_bvar_range,
                approx_depth,
                has_fvar,
                has_expr_mvar,
                has_level_mvar,
                has_level_param,
            ),
    {
        let range = if loose_bvar_range < LOOSE_BVAR_SAT {
            loose_bvar_range
        } else {
            LOOSE_BVAR_SAT
        };
        let hash32 = (hash64 & 0xffff_ffff) as u32;
        let word = ((((((hash32 as u64) | ((approx_depth as u64) << 32u64)) | (flag_bit(has_fvar)
            << 40u64)) | (flag_bit(has_expr_mvar) << 41u64)) | (flag_bit(has_level_mvar)
            << 42u64)) | (flag_bit(has_level_param) << 43u64)) | ((range as u64) << 44u64);
        proof {
            let f = packed_fields(
                hash64,
                loose_bvar_range,
                approx_depth,
                has_fvar,
                has_expr_mvar,
                has_level_mvar,
                has_level_param,
            );
            assert(word == pack_word(f));
            lemma_unpack_pack(f);
        }
        ExprData(word)
    }

    /// The cached hash.
    pub fn hash(self) -> (r: u32)
        ensures
            r == self@.hash,
    {
        self.0 as u32
    }

    /// The approximate depth, saturating at 255.
    pub fn approx_depth(self) -> (r: u8)
        ensures
            r == self@.depth,
    {
        ((self.0 >> 32u64) & 0xff) as u8
    }

    /// The cached loose-bound-variable range.
    pub fn loose_bvar_range(self) -> (r: u32)
        ensures
            r == self@.range,
    {
        (self.0 >> 44u64) as u32
    }

    /// The range when it is exact, `None` when saturated.
    pub fn loose_bvar_range_exact(self) -> (r: Option<u32>)
        ensures
            r == (if self@.range < LOOSE_BVAR_SAT {
                Some(self@.range)
            } else {
                None::<u32>
            }),
    {
        let r = self.loose_bvar_range();
        if r < LOOSE_BVAR_SAT {
            Some(r)
        } else {
            None
        }
    }

    pub fn has_fvar(self) -> (r: bool)
        ensures
            r == self@.has_fvar,
    {
        (self.0 >> 40u64) & 1 == 1
    }

    pub fn has_expr_mvar(self) -> (r: bool)
        ensures
            r == self@.has_expr_mvar,
    {
        (self.0 >> 41u64) & 1 == 1
    }

    pub fn has_level_mvar(self) -> (r: bool)
        ensures
            r == self@.has_level_mvar,
    {
        (self.0 >> 42u64) & 1 == 1
    }

    pub fn has_level_param(self) -> (r: bool)
        ensures
            r == self@.has_level_param,
    {
        (self.0 >> 43u64) & 1 == 1
    }
}


fn depth_of(children_max: u8) -> (r: u8)
    ensures
        r == spec_depth_of(children_max),
{
    if children_max < 255 {
        children_max + 1
    } else {
        255
    }
}

fn close_one(range: u32) -> (r: u32)
    ensures
        r == spec_close_one(range),
{
    if range >= LOOSE_BVAR_SAT {
        LOOSE_BVAR_SAT
    } else if range == 0 {
        0
    } else {
        range - 1
    }
}

fn max_of_u8(a: u8, b: u8) -> (r: u8)
    ensures
        r == max_u8(a, b),
{
    if a >= b {
        a
    } else {
        b
    }
}

fn max_of_u32(a: u32, b: u32) -> (r: u32)
    ensures
        r == max_u32(a, b),
{
    if a >= b {
        a
    } else {
        b
    }
}

fn combine_app(fd: ExprData, ad: ExprData) -> (r: ExprData)
    ensures
        r@ == app_fields(fd@, ad@),
{
    let depth = depth_of(max_of_u8(fd.approx_depth(), ad.approx_depth()));
    let range = max_of_u32(fd.loose_bvar_range(), ad.loose_bvar_range());
    let h = mix(depth as u64, mix(fd.hash() as u64, ad.hash() as u64));
    ExprData::pack(
        h,
        range,
        depth,
        fd.has_fvar() || ad.has_fvar(),
        fd.has_expr_mvar() || ad.has_expr_mvar(),
        fd.has_level_mvar() || ad.has_level_mvar(),
        fd.has_level_param() || ad.has_level_param(),
    )
}

fn combine_binder(td: ExprData, bd: ExprData) -> (r: ExprData)
    ensures
        r@ == binder_fields(td@, bd@),
{
    let depth = depth_of(max_of_u8(td.approx_depth(), bd.approx_depth()));
    let range = max_of_u32(td.loose_bvar_range(), close_one(bd.loose_bvar_range()));
    let h = mix(depth as u64, mix(td.hash() as u64, bd.hash() as u64));
    ExprData::pack(
        h,
        range,
        depth,
        td.has_fvar() || bd.has_fvar(),
        td.has_expr_mvar() || bd.has_expr_mvar(),
        td.has_level_mvar() || bd.has_level_mvar(),
        td.has_level_param() || bd.has_level_param(),
    )
}

fn combine_let(td: ExprData, vd: ExprData, bd: ExprData) -> (r: ExprData)
    ensures
        r@ == let_fields(td@, vd@, bd@),
{
    let depth = depth_of(
        max_of_u8(max_of_u8(td.approx_depth(), vd.approx_depth()), bd.approx_depth()),
    );
    let range = max_of_u32(
        max_of_u32(td.loose_bvar_range(), vd.loose_bvar_range()),
        close_one(bd.loose_bvar_range()),
    );
    let h = mix(depth as u64, mix(td.hash() as u64, mix(vd.hash() as u64, bd.hash() as u64)));
    ExprData::pack(
        h,
        range,
        depth,
        td.has_fvar() || vd.has_fvar() || bd.has_fvar(),
        td.has_expr_mvar() || vd.has_expr_mvar() || bd.has_expr_mvar(),
        td.has_level_mvar() || vd.has_level_mvar() || bd.has_level_mvar(),
        td.has_level_param() || vd.has_level_param() || bd.has_level_param(),
    )
}

/// `idx + 1`, capped at the saturation value.
fn bvar_loose_range(idx: &Nat) -> (r: u32)
    ensures
        r == bvar_range(idx@),
{
    match idx.to_usize() {
        Some(v) => {
            if v < 1048574 {
                (v + 1) as u32
            } else {
                LOOSE_BVAR_SAT
            }
        },
        None => LOOSE_BVAR_SAT,
    }
}

fn literal_hash_of(l: &Literal) -> (r: u64)
    ensures
        r == literal_hash(l@),
{
    match l {
        Literal::NatVal(n) => mix(1, n.low_u64()),
        Literal::StrVal(s) => {
            let cs = crate::name::string_chars(s.as_str());
            mix(2, chars_hash(&cs))
        },
    }
}

impl Expr {
    /// The cached data word, in sync with the view.
    pub fn data(&self) -> (r: ExprData)
        ensures
            r@ == expr_fields(self@),
    {
        proof {
            use_type_invariant(self);
        }
        self.data
    }

    /// The node.
    pub fn node(&self) -> (r: &ExprNode)
        ensures
            r@ == self@,
    {
        &self.node
    }

    /// Bound variable `#idx`.
    pub fn bvar(idx: Nat) -> (r: Arc<Expr>)
        ensures
            r@ == SExpr::BVar(idx@),
    {
        let range = bvar_loose_range(&idx);
        let h = mix(TAG_BVAR, idx.low_u64());
        let data = ExprData::pack(h, range, 1, false, false, false, false);
        Arc::new(Expr { data, node: ExprNode::BVar { idx } })
    }

    /// Free variable `id`.
    pub fn fvar(id: Arc<Name>) -> (r: Arc<Expr>)
        ensures
            r@ == SExpr::FVar(id@),
    {
        let h = mix(TAG_FVAR, id.hash_u64());
        let data = ExprData::pack(h, 0, 1, true, false, false, false);
        Arc::new(Expr { data, node: ExprNode::FVar { id } })
    }

    /// Metavariable `id`.
    pub fn mvar(id: Arc<Name>) -> (r: Arc<Expr>)
        ensures
            r@ == SExpr::MVar(id@),
    {
        let h = mix(TAG_MVAR, id.hash_u64());
        let data = ExprData::pack(h, 0, 1, false, true, false, false);
        Arc::new(Expr { data, node: ExprNode::MVar { id } })
    }

    /// `Sort level`. Walks the level under the guard.
    pub fn sort(level: Arc<Level>, g: &mut RecGuard) -> (r: Result<Arc<Expr>, KernelError>)
        ensures
            *final(g) == *old(g),
            r matches Ok(x) ==> x@ == SExpr::Sort(level@),
            r matches Err(e) ==> e is DeepRecursion,
            old(g).depth() + level_height(level@) <= MAX_REC_DEPTH ==> r is Ok,
    {
        let has_mvar = Level::has_mvar(&level, g)?;
        let has_param = Level::has_param(&level, g)?;
        let lh = Level::hash_val(&level, g)?;
        let h = mix(TAG_SORT, lh);
        let data = ExprData::pack(h, 0, 1, false, false, has_mvar, has_param);
        Ok(Arc::new(Expr { data, node: ExprNode::Sort { level } }))
    }

    /// Constant `name` at universe `levels`. Walks the levels under the
    /// guard.
    pub fn const_(name: Arc<Name>, levels: Vec<Arc<Level>>, g: &mut RecGuard) -> (r: Result<
        Arc<Expr>,
        KernelError,
    >)
        ensures
            *final(g) == *old(g),
            r matches Ok(x) ==> x@ == SExpr::Const(name@, levels_view(levels@)),
            r matches Err(e) ==> e is DeepRecursion,
            (forall|i: int|
                0 <= i < levels@.len() ==> old(g).depth() + level_height(#[trigger] levels@[i]@)
                    <= MAX_REC_DEPTH) ==> r is Ok,
    {
        let ghost lv = levels_view(levels@);
        let mut has_mvar = false;
        let mut has_param = false;
        let mut levels_h: u64 = 0;
        let mut i: usize = 0;
        while i < levels.len()
            invariant
                i <= levels@.len(),
                lv == levels_view(levels@),
                *g == *old(g),
                has_mvar == levels_have_mvar(lv.take(i as int)),
                has_param == levels_have_param(lv.take(i as int)),
                levels_h == levels_hash(lv.take(i as int)),
            decreases levels@.len() - i,
        {
            let l = &levels[i];
            let m = Level::has_mvar(l, g)?;
            let p = Level::has_param(l, g)?;
            let lh = Level::hash_val(l, g)?;
            proof {
                let t = lv.take(i as int);
                let t1 = lv.take(i + 1);
                assert(t1.drop_last() =~= t);
                assert(t1.last() == l@);
                if levels_have_mvar(t1) {
                    let w = choose|w: int| 0 <= w < t1.len() && spec_has_mvar(#[trigger] t1[w]);
                    if w < i {
                        assert(t[w] == t1[w]);
                    }
                }
                if levels_have_param(t1) {
                    let w = choose|w: int| 0 <= w < t1.len() && spec_has_param(#[trigger] t1[w]);
                    if w < i {
                        assert(t[w] == t1[w]);
                    }
                }
                if has_mvar {
                    let w = choose|w: int| 0 <= w < t.len() && spec_has_mvar(#[trigger] t[w]);
                    assert(t1[w] == t[w]);
                }
                if has_param {
                    let w = choose|w: int| 0 <= w < t.len() && spec_has_param(#[trigger] t[w]);
                    assert(t1[w] == t[w]);
                }
                if m {
                    assert(spec_has_mvar(t1[i as int]));
                }
                if p {
                    assert(spec_has_param(t1[i as int]));
                }
            }
            has_mvar = has_mvar || m;
            has_param = has_param || p;
            levels_h = mix(levels_h, lh);
            i = i + 1;
        }
        proof {
            assert(lv.take(i as int) =~= lv);
        }
        let h = mix(TAG_CONST, mix(name.hash_u64(), levels_h));
        let data = ExprData::pack(h, 0, 1, false, false, has_mvar, has_param);
        Ok(Arc::new(Expr { data, node: ExprNode::Const { name, levels } }))
    }

    /// Application `f arg`.
    pub fn app(f: Arc<Expr>, arg: Arc<Expr>) -> (r: Arc<Expr>)
        ensures
            r@ == SExpr::App(Box::new(f@), Box::new(arg@)),
    {
        let data = combine_app(f.data(), arg.data());
        Arc::new(Expr { data, node: ExprNode::App { f, arg } })
    }

    /// Lambda abstraction.
    pub fn lam(
        binder_name: Arc<Name>,
        binder_type: Arc<Expr>,
        body: Arc<Expr>,
        binder_info: BinderInfo,
    ) -> (r: Arc<Expr>)
        ensures
            r@ == SExpr::Lam(binder_name@, Box::new(binder_type@), Box::new(body@), binder_info),
    {
        let data = combine_binder(binder_type.data(), body.data());
        Arc::new(Expr { data, node: ExprNode::Lam { binder_name, binder_type, body, binder_info } })
    }

    /// Dependent function type.
    pub fn forall_e(
        binder_name: Arc<Name>,
        binder_type: Arc<Expr>,
        body: Arc<Expr>,
        binder_info: BinderInfo,
    ) -> (r: Arc<Expr>)
        ensures
            r@ == SExpr::ForallE(binder_name@, Box::new(binder_type@), Box::new(body@), binder_info),
    {
        let data = combine_binder(binder_type.data(), body.data());
        Arc::new(
            Expr { data, node: ExprNode::ForallE { binder_name, binder_type, body, binder_info } },
        )
    }

    /// Local definition `let decl_name : ty := value; body`.
    pub fn let_e(
        decl_name: Arc<Name>,
        ty: Arc<Expr>,
        value: Arc<Expr>,
        body: Arc<Expr>,
        non_dep: bool,
    ) -> (r: Arc<Expr>)
        ensures
            r@ == SExpr::LetE(decl_name@, Box::new(ty@), Box::new(value@), Box::new(body@), non_dep),
    {
        let data = combine_let(ty.data(), value.data(), body.data());
        Arc::new(Expr { data, node: ExprNode::LetE { decl_name, ty, value, body, non_dep } })
    }

    /// Literal.
    pub fn lit(l: Literal) -> (r: Arc<Expr>)
        ensures
            r@ == SExpr::Lit(l@),
    {
        let h = mix(TAG_LIT, literal_hash_of(&l));
        let data = ExprData::pack(h, 0, 1, false, false, false, false);
        Arc::new(Expr { data, node: ExprNode::Lit(l) })
    }

    /// Metadata around `expr`.
    pub fn mdata(data: KVMap, expr: Arc<Expr>) -> (r: Arc<Expr>)
        ensures
            r@ == SExpr::MData(data@, Box::new(expr@)),
    {
        let cd = expr.data();
        let depth = depth_of(cd.approx_depth());
        let h = mix(depth as u64, cd.hash() as u64);
        let out = ExprData::pack(
            h,
            cd.loose_bvar_range(),
            depth,
            cd.has_fvar(),
            cd.has_expr_mvar(),
            cd.has_level_mvar(),
            cd.has_level_param(),
        );
        Arc::new(Expr { data: out, node: ExprNode::MData { data, expr } })
    }

    /// Projection of field `idx` out of `structure`, a value of the
    /// structure type `struct_name`.
    pub fn proj(struct_name: Arc<Name>, idx: Nat, structure: Arc<Expr>) -> (r: Arc<Expr>)
        ensures
            r@ == SExpr::Proj(struct_name@, idx@, Box::new(structure@)),
    {
        let cd = structure.data();
        let depth = depth_of(cd.approx_depth());
        let nh = struct_name.hash_u64();
        let ih = idx.low_u64();
        let h = mix(depth as u64, mix(nh, mix(ih, cd.hash() as u64)));
        let out = ExprData::pack(
            h,
            cd.loose_bvar_range(),
            depth,
            cd.has_fvar(),
            cd.has_expr_mvar(),
            cd.has_level_mvar(),
            cd.has_level_param(),
        );
        Arc::new(Expr { data: out, node: ExprNode::Proj { struct_name, idx, structure } })
    }
}


// ---------------------------------------------------------------------
// Equality.
// ---------------------------------------------------------------------

/// Equality up to binder names and binder annotations (and the names of
/// `let` declarations).
pub open spec fn alpha_equiv(a: SExpr, b: SExpr) -> bool
    decreases a,
{
    match (a, b) {
        (SExpr::App(f1, x1), SExpr::App(f2, x2)) => alpha_equiv(*f1, *f2) && alpha_equiv(*x1, *x2),
        (SExpr::Lam(_, t1, b1, _), SExpr::Lam(_, t2, b2, _)) => alpha_equiv(*t1, *t2) && alpha_equiv(
            *b1,
            *b2,
        ),
        (SExpr::ForallE(_, t1, b1, _), SExpr::ForallE(_, t2, b2, _)) => alpha_equiv(*t1, *t2)
            && alpha_equiv(*b1, *b2),
        (SExpr::LetE(_, t1, v1, b1, d1), SExpr::LetE(_, t2, v2, b2, d2)) => d1 == d2 && alpha_equiv(
            *t1,
            *t2,
        ) && alpha_equiv(*v1, *v2) && alpha_equiv(*b1, *b2),
        (SExpr::MData(m1, x1), SExpr::MData(m2, x2)) => m1 == m2 && alpha_equiv(*x1, *x2),
        (SExpr::Proj(n1, i1, x1), SExpr::Proj(n2, i2, x2)) => n1 == n2 && i1 == i2 && alpha_equiv(
            *x1,
            *x2,
        ),
        _ => a == b,
    }
}

/// Whether the metadata holds a syntax value.
pub open spec fn kv_has_syntax(m: Seq<(Seq<NameComp>, SDataValue)>) -> bool {
    exists|i: int| 0 <= i < m.len() && (#[trigger] m[i]).1 is OfSyntax
}

/// Whether some metadata in `e` holds a syntax value. Syntax values are
/// compared by identity, so equality is decided exactly only without
/// them.
pub open spec fn has_syntax(e: SExpr) -> bool
    decreases e,
{
    match e {
        SExpr::App(f, a) => has_syntax(*f) || has_syntax(*a),
        SExpr::Lam(_, t, b, _) => has_syntax(*t) || has_syntax(*b),
        SExpr::ForallE(_, t, b, _) => has_syntax(*t) || has_syntax(*b),
        SExpr::LetE(_, t, v, b, _) => has_syntax(*t) || has_syntax(*v) || has_syntax(*b),
        SExpr::MData(m, x) => kv_has_syntax(m) || has_syntax(*x),
        SExpr::Proj(_, _, x) => has_syntax(*x),
        _ => false,
    }
}

pub open spec fn max_nat(a: nat, b: nat) -> nat {
    if a >= b {
        a
    } else {
        b
    }
}

/// The greatest level height in `ls`.
pub open spec fn levels_height(ls: Seq<SLevel>) -> nat
    decreases ls.len(),
{
    if ls.len() == 0 {
        0
    } else {
        max_nat(levels_height(ls.drop_last()), level_height(ls.last()))
    }
}

/// The guard frames a full traversal of `e` needs, levels included.
pub open spec fn expr_height(e: SExpr) -> nat
    decreases e,
{
    match e {
        SExpr::Sort(l) => level_height(l),
        SExpr::Const(_, ls) => levels_height(ls),
        SExpr::App(f, a) => 1 + max_nat(expr_height(*f), expr_height(*a)),
        SExpr::Lam(_, t, b, _) => 1 + max_nat(expr_height(*t), expr_height(*b)),
        SExpr::ForallE(_, t, b, _) => 1 + max_nat(expr_height(*t), expr_height(*b)),
        SExpr::LetE(_, t, v, b, _) => 1 + max_nat(
            max_nat(expr_height(*t), expr_height(*v)),
            expr_height(*b),
        ),
        SExpr::MData(_, x) => 1 + expr_height(*x),
        SExpr::Proj(_, _, x) => 1 + expr_height(*x),
        _ => 0,
    }
}

/// Whether a full traversal of `e` fits under the guard's cap.
pub open spec fn expr_fits(g: RecGuard, e: SExpr) -> bool {
    g.depth() + expr_height(e) <= MAX_REC_DEPTH
}

pub proof fn lemma_levels_height(ls: Seq<SLevel>, i: int)
    requires
        0 <= i < ls.len(),
    ensures
        level_height(ls[i]) <= levels_height(ls),
    decreases ls.len(),
{
    if i < ls.len() - 1 {
        lemma_levels_height(ls.drop_last(), i);
    }
}

pub proof fn lemma_alpha_refl(e: SExpr)
    ensures
        alpha_equiv(e, e),
    decreases e,
{
    match e {
        SExpr::App(f, a) => {
            lemma_alpha_refl(*f);
            lemma_alpha_refl(*a);
        },
        SExpr::Lam(_, t, b, _) => {
            lemma_alpha_refl(*t);
            lemma_alpha_refl(*b);
        },
        SExpr::ForallE(_, t, b, _) => {
            lemma_alpha_refl(*t);
            lemma_alpha_refl(*b);
        },
        SExpr::LetE(_, t, v, b, _) => {
            lemma_alpha_refl(*t);
            lemma_alpha_refl(*v);
            lemma_alpha_refl(*b);
        },
        SExpr::MData(_, x) => {
            lemma_alpha_refl(*x);
        },
        SExpr::Proj(_, _, x) => {
            lemma_alpha_refl(*x);
        },
        _ => {},
    }
}

/// Alpha equivalence is symmetric.
pub proof fn law_alpha_symmetric(a: SExpr, b: SExpr)
    requires
        alpha_equiv(a, b),
    ensures
        alpha_equiv(b, a),
    decreases a,
{
    match (a, b) {
        (SExpr::App(f1, x1), SExpr::App(f2, x2)) => {
            law_alpha_symmetric(*f1, *f2);
            law_alpha_symmetric(*x1, *x2);
        },
        (SExpr::Lam(_, t1, b1, _), SExpr::Lam(_, t2, b2, _)) => {
            law_alpha_symmetric(*t1, *t2);
            law_alpha_symmetric(*b1, *b2);
        },
        (SExpr::ForallE(_, t1, b1, _), SExpr::ForallE(_, t2, b2, _)) => {
            law_alpha_symmetric(*t1, *t2);
            law_alpha_symmetric(*b1, *b2);
        },
        (SExpr::LetE(_, t1, v1, b1, _), SExpr::LetE(_, t2, v2, b2, _)) => {
            law_alpha_symmetric(*t1, *t2);
            law_alpha_symmetric(*v1, *v2);
            law_alpha_symmetric(*b1, *b2);
        },
        (SExpr::MData(_, x1), SExpr::MData(_, x2)) => {
            law_alpha_symmetric(*x1, *x2);
        },
        (SExpr::Proj(_, _, x1), SExpr::Proj(_, _, x2)) => {
            law_alpha_symmetric(*x1, *x2);
        },
        _ => {},
    }
}

/// Structurally equal expressions are alpha-equivalent.
pub proof fn law_equal_is_alpha(a: SExpr, b: SExpr)
    requires
        a == b,
    ensures
        alpha_equiv(a, b),
{
    lemma_alpha_refl(a);
}

/// Alpha-equivalent expressions carry the same data: binder names and
/// annotations never enter the data word.
pub proof fn lemma_alpha_fields(a: SExpr, b: SExpr)
    requires
        alpha_equiv(a, b),
    ensures
        expr_fields(a) == expr_fields(b),
    decreases a,
{
    match (a, b) {
        (SExpr::App(f1, x1), SExpr::App(f2, x2)) => {
            lemma_alpha_fields(*f1, *f2);
            lemma_alpha_fields(*x1, *x2);
        },
        (SExpr::Lam(_, t1, b1, _), SExpr::Lam(_, t2, b2, _)) => {
            lemma_alpha_fields(*t1, *t2);
            lemma_alpha_fields(*b1, *b2);
        },
        (SExpr::ForallE(_, t1, b1, _), SExpr::ForallE(_, t2, b2, _)) => {
            lemma_alpha_fields(*t1, *t2);
            lemma_alpha_fields(*b1, *b2);
        },
        (SExpr::LetE(_, t1, v1, b1, _), SExpr::LetE(_, t2, v2, b2, _)) => {
            lemma_alpha_fields(*t1, *t2);
            lemma_alpha_fields(*v1, *v2);
            lemma_alpha_fields(*b1, *b2);
        },
        (SExpr::MData(_, x1), SExpr::MData(_, x2)) => {
            lemma_alpha_fields(*x1, *x2);
        },
        (SExpr::Proj(_, _, x1), SExpr::Proj(_, _, x2)) => {
            lemma_alpha_fields(*x1, *x2);
        },
        _ => {},
    }
}

/// The equivalence an equality test decides: full equality when binders
/// are compared, alpha-equivalence otherwise.
pub open spec fn equiv_by(compare_binders: bool, a: SExpr, b: SExpr) -> bool {
    if compare_binders {
        a == b
    } else {
        alpha_equiv(a, b)
    }
}

pub(crate) fn literal_eq(a: &Literal, b: &Literal) -> (r: bool)
    ensures
        r == (a@ == b@),
{
    match (a, b) {
        (Literal::NatVal(x), Literal::NatVal(y)) => x.beq(y),
        (Literal::StrVal(x), Literal::StrVal(y)) => *x == *y,
        _ => false,
    }
}

/// Equality of metadata values; syntax values compare by identity.
pub fn data_value_eq(a: &DataValue, b: &DataValue) -> (r: bool)
    ensures
        r ==> a@ == b@,
        !(a@ is OfSyntax) ==> r == (a@ == b@),
{
    match (a, b) {
        (DataValue::OfString(x), DataValue::OfString(y)) => *x == *y,
        (DataValue::OfBool(x), DataValue::OfBool(y)) => *x == *y,
        (DataValue::OfName(x), DataValue::OfName(y)) => x.equal(y),
        (DataValue::OfNat(x), DataValue::OfNat(y)) => x.beq(y),
        (DataValue::OfInt(x), DataValue::OfInt(y)) => x.eq_int(y),
        (DataValue::OfSyntax(x), DataValue::OfSyntax(y)) => same_node(x, y),
        _ => false,
    }
}

/// Equality of metadata maps: same entries in the same order.
pub fn kvmap_eq(a: &KVMap, b: &KVMap) -> (r: bool)
    ensures
        r ==> a@ == b@,
        !kv_has_syntax(a@) ==> r == (a@ == b@),
{
    if a.0.len() != b.0.len() {
        proof {
            assert(a@.len() != b@.len());
        }
        return false;
    }
    let mut i: usize = 0;
    while i < a.0.len()
        invariant
            a.0@.len() == b.0@.len(),
            i <= a.0@.len(),
            forall|j: int| 0 <= j < i ==> a@[j] == b@[j],
        decreases a.0@.len() - i,
    {
        let (na, va) = &a.0[i];
        let (nb, vb) = &b.0[i];
        let ghost ai = a@[i as int];
        let ghost bi = b@[i as int];
        proof {
            assert(ai == kv_entry_view(a.0@[i as int]));
            assert(bi == kv_entry_view(b.0@[i as int]));
        }
        if !na.equal(nb) || !data_value_eq(va, vb) {
            proof {
                if !kv_has_syntax(a@) {
                    assert(!(a@[i as int].1 is OfSyntax));
                    assert(a@[i as int] != b@[i as int]);
                }
            }
            return false;
        }
        i = i + 1;
    }
    proof {
        assert(a@ =~= b@);
    }
    true
}

/// Element-wise structural equality of two level lists.
pub(crate) fn levels_eq(a: &Vec<Arc<Level>>, b: &Vec<Arc<Level>>, g: &mut RecGuard) -> (r: Result<
    bool,
    KernelError,
>)
    ensures
        *final(g) == *old(g),
        r matches Ok(x) ==> x == (levels_view(a@) == levels_view(b@)),
        r matches Err(e) ==> e is DeepRecursion,
        old(g).depth() + levels_height(levels_view(a@)) <= MAX_REC_DEPTH ==> r is Ok,
{
    let ghost va = levels_view(a@);
    let ghost vb = levels_view(b@);
    if a.len() != b.len() {
        proof {
            assert(va.len() != vb.len());
        }
        return Ok(false);
    }
    let mut i: usize = 0;
    while i < a.len()
        invariant
            a@.len() == b@.len(),
            va == levels_view(a@),
            vb == levels_view(b@),
            *g == *old(g),
            i <= a@.len(),
            forall|j: int| 0 <= j < i ==> va[j] == vb[j],
        decreases a@.len() - i,
    {
        proof {
            lemma_levels_height(va, i as int);
        }
        let same = Level::structural_eq(&a[i], &b[i], g)?;
        if !same {
            return Ok(false);
        }
        i = i + 1;
    }
    proof {
        assert(va =~= vb);
    }
    Ok(true)
}

/// The contract every equality helper meets: sound always, complete
/// without syntax values, total when the traversal fits.
pub open spec fn eq_result(
    cb: bool,
    a: SExpr,
    b: SExpr,
    g0: RecGuard,
    r: Result<bool, KernelError>,
) -> bool {
    &&& r matches Ok(x) ==> (x ==> equiv_by(cb, a, b)) && (!has_syntax(a) ==> x == equiv_by(
        cb,
        a,
        b,
    ))
    &&& r matches Err(e) ==> e is DeepRecursion
    &&& expr_fits(g0, a) ==> r is Ok
}

impl Expr {
    /// Structural equality, binder names and annotations included. Pointer
    /// fast path, then the cached data words (unequal words mean unequal
    /// expressions), then a guarded descent.
    pub fn structural_eq(a: &Arc<Expr>, b: &Arc<Expr>, g: &mut RecGuard) -> (r: Result<
        bool,
        KernelError,
    >)
        ensures
            *final(g) == *old(g),
            r matches Ok(x) ==> (x ==> a@ == b@) && (!has_syntax(a@) ==> x == (a@ == b@)),
            r matches Err(e) ==> e is DeepRecursion,
            expr_fits(*old(g), a@) ==> r is Ok,
            r == Ok::<bool, KernelError>(true) ==> expr_fields(a@) == expr_fields(b@),
    {
        Self::eq_impl(a, b, g, true)
    }

    /// Equality up to binder names and annotations (`alpha_equiv`).
    pub fn alpha_eq(a: &Arc<Expr>, b: &Arc<Expr>, g: &mut RecGuard) -> (r: Result<
        bool,
        KernelError,
    >)
        ensures
            *final(g) == *old(g),
            r matches Ok(x) ==> (x ==> alpha_equiv(a@, b@)) && (!has_syntax(a@) ==> x
                == alpha_equiv(a@, b@)),
            r matches Err(e) ==> e is DeepRecursion,
            expr_fits(*old(g), a@) ==> r is Ok,
            r == Ok::<bool, KernelError>(true) ==> expr_fields(a@) == expr_fields(b@),
    {
        let r = Self::eq_impl(a, b, g, false);
        proof {
            if r == Ok::<bool, KernelError>(true) {
                lemma_alpha_fields(a@, b@);
            }
        }
        r
    }

    fn eq_impl(a: &Arc<Expr>, b: &Arc<Expr>, g: &mut RecGuard, compare_binders: bool) -> (r:
        Result<bool, KernelError>)
        ensures
            *final(g) == *old(g),
            eq_result(compare_binders, a@, b@, *old(g), r),
        decreases a, 1nat,
    {
        if same_node(a, b) {
            proof {
                lemma_alpha_refl(a@);
            }
            return Ok(true);
        }
        let da = a.data();
        let db = b.data();
        if da != db {
            proof {
                da.lemma_eq(db);
                if alpha_equiv(a@, b@) {
                    lemma_alpha_fields(a@, b@);
                }
            }
            return Ok(false);
        }
        match a.node() {
            ExprNode::App { .. } => eq_app(a, b, g, compare_binders),
            ExprNode::Lam { .. } | ExprNode::ForallE { .. } => eq_binder(a, b, g, compare_binders),
            ExprNode::LetE { .. } => eq_let(a, b, g, compare_binders),
            ExprNode::MData { .. } | ExprNode::Proj { .. } => eq_wrap(a, b, g, compare_binders),
            _ => eq_leaf(a, b, g),
        }
    }
}

/// Equality of two nodes without children expressions.
fn eq_leaf(a: &Arc<Expr>, b: &Arc<Expr>, g: &mut RecGuard) -> (r: Result<bool, KernelError>)
    requires
        !(a@ is App || a@ is Lam || a@ is ForallE || a@ is LetE || a@ is MData || a@ is Proj),
    ensures
        *final(g) == *old(g),
        eq_result(true, a@, b@, *old(g), r),
        eq_result(false, a@, b@, *old(g), r),
{
    match (a.node(), b.node()) {
        (ExprNode::BVar { idx: ia }, ExprNode::BVar { idx: ib }) => Ok(ia.beq(ib)),
        (ExprNode::FVar { id: ia }, ExprNode::FVar { id: ib }) => Ok(ia.equal(ib)),
        (ExprNode::MVar { id: ia }, ExprNode::MVar { id: ib }) => Ok(ia.equal(ib)),
        (ExprNode::Sort { level: la }, ExprNode::Sort { level: lb }) => Level::structural_eq(
            la,
            lb,
            g,
        ),
        (ExprNode::Const { name: na, levels: lsa }, ExprNode::Const { name: nb, levels: lsb }) => {
            if !na.equal(nb) {
                return Ok(false);
            }
            levels_eq(lsa, lsb, g)
        },
        (ExprNode::Lit(la), ExprNode::Lit(lb)) => Ok(literal_eq(la, lb)),
        _ => Ok(false),
    }
}

fn eq_app(a: &Arc<Expr>, b: &Arc<Expr>, g: &mut RecGuard, cb: bool) -> (r: Result<
    bool,
    KernelError,
>)
    requires
        a@ is App,
    ensures
        *final(g) == *old(g),
        eq_result(cb, a@, b@, *old(g), r),
    decreases a, 0nat,
{
    match (&(**a).node, &(**b).node) {
        (ExprNode::App { f: fa, arg: aa }, ExprNode::App { f: fb, arg: ab }) => {
            let (fa, aa, fb, ab) = (share(fa), share(aa), share(fb), share(ab));
            let f = move |g2: RecGuard| -> (r: Result<bool, KernelError>)
                ensures
                    r matches Ok(x) ==> (x ==> equiv_by(cb, fa@, fb@) && equiv_by(cb, aa@, ab@))
                        && (!has_syntax(fa@) && !has_syntax(aa@) ==> x == (equiv_by(
                        cb,
                        fa@,
                        fb@,
                    ) && equiv_by(cb, aa@, ab@))),
                    r matches Err(e) ==> e is DeepRecursion,
                    expr_fits(g2, fa@) && expr_fits(g2, aa@) ==> r is Ok,
                {
                    let mut g3 = g2;
                    match Expr::eq_impl(&fa, &fb, &mut g3, cb) {
                        Err(e) => Err(e),
                        Ok(false) => Ok(false),
                        Ok(true) => Expr::eq_impl(&aa, &ab, &mut g3, cb),
                    }
                };
            g.enter(f)
        },
        _ => Ok(false),
    }
}

fn eq_binder(a: &Arc<Expr>, b: &Arc<Expr>, g: &mut RecGuard, cb: bool) -> (r: Result<
    bool,
    KernelError,
>)
    requires
        a@ is Lam || a@ is ForallE,
    ensures
        *final(g) == *old(g),
        eq_result(cb, a@, b@, *old(g), r),
    decreases a, 0nat,
{
    let (ta, ba, tb, bb) = match (&(**a).node, &(**b).node) {
        (
            ExprNode::Lam { binder_name: na, binder_type: ta, body: ba, binder_info: ia },
            ExprNode::Lam { binder_name: nb, binder_type: tb, body: bb, binder_info: ib },
        ) => {
            if cb && (!na.equal(nb) || *ia != *ib) {
                return Ok(false);
            }
            (share(ta), share(ba), share(tb), share(bb))
        },
        (
            ExprNode::ForallE { binder_name: na, binder_type: ta, body: ba, binder_info: ia },
            ExprNode::ForallE { binder_name: nb, binder_type: tb, body: bb, binder_info: ib },
        ) => {
            if cb && (!na.equal(nb) || *ia != *ib) {
                return Ok(false);
            }
            (share(ta), share(ba), share(tb), share(bb))
        },
        _ => {
            return Ok(false);
        },
    };
    let f = move |g2: RecGuard| -> (r: Result<bool, KernelError>)
        ensures
            r matches Ok(x) ==> (x ==> equiv_by(cb, ta@, tb@) && equiv_by(cb, ba@, bb@)) && (
            !has_syntax(ta@) && !has_syntax(ba@) ==> x == (equiv_by(cb, ta@, tb@) && equiv_by(
                cb,
                ba@,
                bb@,
            ))),
            r matches Err(e) ==> e is DeepRecursion,
            expr_fits(g2, ta@) && expr_fits(g2, ba@) ==> r is Ok,
        {
            let mut g3 = g2;
            match Expr::eq_impl(&ta, &tb, &mut g3, cb) {
                Err(e) => Err(e),
                Ok(false) => Ok(false),
                Ok(true) => Expr::eq_impl(&ba, &bb, &mut g3, cb),
            }
        };
    g.enter(f)
}

fn eq_let(a: &Arc<Expr>, b: &Arc<Expr>, g: &mut RecGuard, cb: bool) -> (r: Result<
    bool,
    KernelError,
>)
    requires
        a@ is LetE,
    ensures
        *final(g) == *old(g),
        eq_result(cb, a@, b@, *old(g), r),
    decreases a, 0nat,
{
    match (&(**a).node, &(**b).node) {
        (
            ExprNode::LetE { decl_name: na, ty: ta, value: va, body: ba, non_dep: da },
            ExprNode::LetE { decl_name: nb, ty: tb, value: vb, body: bb, non_dep: db },
        ) => {
            if *da != *db || (cb && !na.equal(nb)) {
                return Ok(false);
            }
            let (ta, va, ba) = (share(ta), share(va), share(ba));
            let (tb, vb, bb) = (share(tb), share(vb), share(bb));
            let f = move |g2: RecGuard| -> (r: Result<bool, KernelError>)
                ensures
                    r matches Ok(x) ==> (x ==> equiv_by(cb, ta@, tb@) && equiv_by(cb, va@, vb@)
                        && equiv_by(cb, ba@, bb@)) && (!has_syntax(ta@) && !has_syntax(va@)
                        && !has_syntax(ba@) ==> x == (equiv_by(cb, ta@, tb@) && equiv_by(
                        cb,
                        va@,
                        vb@,
                    ) && equiv_by(cb, ba@, bb@))),
                    r matches Err(e) ==> e is DeepRecursion,
                    expr_fits(g2, ta@) && expr_fits(g2, va@) && expr_fits(g2, ba@) ==> r is Ok,
                {
                    let mut g3 = g2;
                    match Expr::eq_impl(&ta, &tb, &mut g3, cb) {
                        Err(e) => {
                            return Err(e);
                        },
                        Ok(false) => {
                            return Ok(false);
                        },
                        Ok(true) => {},
                    }
                    match Expr::eq_impl(&va, &vb, &mut g3, cb) {
                        Err(e) => Err(e),
                        Ok(false) => Ok(false),
                        Ok(true) => Expr::eq_impl(&ba, &bb, &mut g3, cb),
                    }
                };
            g.enter(f)
        },
        _ => Ok(false),
    }
}

fn eq_wrap(a: &Arc<Expr>, b: &Arc<Expr>, g: &mut RecGuard, cb: bool) -> (r: Result<
    bool,
    KernelError,
>)
    requires
        a@ is MData || a@ is Proj,
    ensures
        *final(g) == *old(g),
        eq_result(cb, a@, b@, *old(g), r),
    decreases a, 0nat,
{
    let (xa, xb) = match (&(**a).node, &(**b).node) {
        (ExprNode::MData { data: ma, expr: xa }, ExprNode::MData { data: mb, expr: xb }) => {
            if !kvmap_eq(ma, mb) {
                return Ok(false);
            }
            (share(xa), share(xb))
        },
        (
            ExprNode::Proj { struct_name: na, idx: ia, structure: sa },
            ExprNode::Proj { struct_name: nb, idx: ib, structure: sb },
        ) => {
            if !na.equal(nb) || !ia.beq(ib) {
                return Ok(false);
            }
            (share(sa), share(sb))
        },
        _ => {
            return Ok(false);
        },
    };
    let f = move |g2: RecGuard| -> (r: Result<bool, KernelError>)
        ensures
            r matches Ok(x) ==> (x ==> equiv_by(cb, xa@, xb@)) && (!has_syntax(xa@) ==> x
                == equiv_by(cb, xa@, xb@)),
            r matches Err(e) ==> e is DeepRecursion,
            expr_fits(g2, xa@) ==> r is Ok,
        {
            let mut g3 = g2;
            Expr::eq_impl(&xa, &xb, &mut g3, cb)
        };
    g.enter(f)
}

// ---------------------------------------------------------------------
// Application spines and shape tests.
// ---------------------------------------------------------------------

/// The views of a list of expressions.
pub open spec fn exprs_view(s: Seq<Arc<Expr>>) -> Seq<SExpr> {
    Seq::new(s.len(), |i: int| s[i]@)
}

/// The head of an application spine.
pub open spec fn app_fn(e: SExpr) -> SExpr
    decreases e,
{
    match e {
        SExpr::App(f, _) => app_fn(*f),
        _ => e,
    }
}

/// The head of a spine is no application, so it is its own head.
pub proof fn lemma_app_fn_idem(e: SExpr)
    ensures
        app_fn(app_fn(e)) == app_fn(e),
        !(app_fn(e) is App),
    decreases e,
{
    if let SExpr::App(f, _) = e {
        lemma_app_fn_idem(*f);
    }
}

/// The arguments of an application spine, first applied first.
pub open spec fn app_args(e: SExpr) -> Seq<SExpr>
    decreases e,
{
    match e {
        SExpr::App(f, a) => app_args(*f).push(*a),
        _ => Seq::empty(),
    }
}

/// `f` applied to `args` in order.
pub open spec fn mk_spine(f: SExpr, args: Seq<SExpr>) -> SExpr
    decreases args.len(),
{
    if args.len() == 0 {
        f
    } else {
        SExpr::App(Box::new(mk_spine(f, args.drop_last())), Box::new(args.last()))
    }
}

impl Expr {
    /// The head of the application spine of `e`. A loop.
    pub fn get_app_fn(e: &Arc<Expr>) -> (r: &Arc<Expr>)
        ensures
            r@ == app_fn(e@),
    {
        let mut cur: &Arc<Expr> = e;
        loop
            invariant
                app_fn(cur@) == app_fn(e@),
            decreases cur@,
        {
            match &(**cur).node {
                ExprNode::App { f, .. } => {
                    cur = f;
                },
                _ => {
                    return cur;
                },
            }
        }
    }

    /// The arguments of the application spine of `e`, first applied
    /// first. A loop.
    pub fn get_app_args(e: &Arc<Expr>) -> (r: Vec<Arc<Expr>>)
        ensures
            exprs_view(r@) == app_args(e@),
    {
        let mut rev: Vec<Arc<Expr>> = Vec::new();
        let mut cur: &Arc<Expr> = e;
        loop
            invariant
                app_args(e@) == app_args(cur@) + exprs_view(rev@).reverse(),
            ensures
                app_args(e@) == exprs_view(rev@).reverse(),
            decreases cur@,
        {
            match &(**cur).node {
                ExprNode::App { f, arg } => {
                    proof {
                        let old_rev = exprs_view(rev@);
                        assert(exprs_view(rev@.push(*arg)) =~= old_rev.push(arg@));
                        assert(app_args(cur@) == app_args(f@).push(arg@));
                        assert(old_rev.push(arg@).reverse() =~= seq![arg@] + old_rev.reverse());
                        assert(app_args(f@).push(arg@) + old_rev.reverse() =~= app_args(f@) + (
                        seq![arg@] + old_rev.reverse()));
                    }
                    rev.push(share(arg));
                    cur = f;
                },
                _ => {
                    proof {
                        assert(app_args(cur@) + exprs_view(rev@).reverse() =~= exprs_view(
                            rev@,
                        ).reverse());
                    }
                    break ;
                },
            }
        }
        let mut out: Vec<Arc<Expr>> = Vec::new();
        let n = rev.len();
        let mut i: usize = n;
        while i > 0
            invariant
                i <= n == rev@.len(),
                app_args(e@) == exprs_view(rev@).reverse(),
                exprs_view(out@) == exprs_view(rev@).reverse().take(n - i),
            decreases i,
        {
            proof {
                let rv = exprs_view(rev@).reverse();
                assert(rv[n - i] == rev@[i - 1]@);
                assert(rv.take(n - i + 1) =~= rv.take(n - i).push(rev@[i - 1]@));
                assert(exprs_view(out@.push(rev@[i - 1])) =~= exprs_view(out@).push(
                    rev@[i - 1]@,
                ));
            }
            out.push(share(&rev[i - 1]));
            i = i - 1;
        }
        proof {
            assert(exprs_view(rev@).reverse().take(n as int) =~= exprs_view(rev@).reverse());
        }
        out
    }

    /// The number of arguments of the application spine of `e`.
    pub fn get_app_num_args(e: &Arc<Expr>) -> (r: usize)
        requires
            app_args(e@).len() <= usize::MAX,
        ensures
            r == app_args(e@).len(),
    {
        let mut n: usize = 0;
        let mut cur: &Arc<Expr> = e;
        loop
            invariant
                app_args(e@).len() <= usize::MAX,
                app_args(e@).len() == n + app_args(cur@).len(),
            decreases cur@,
        {
            match &(**cur).node {
                ExprNode::App { f, .. } => {
                    n = n + 1;
                    cur = f;
                },
                _ => {
                    return n;
                },
            }
        }
    }

    /// `f` applied to each of `args` in order.
    pub fn mk_app_spine(f: Arc<Expr>, args: &[Arc<Expr>]) -> (r: Arc<Expr>)
        ensures
            r@ == mk_spine(f@, exprs_view(args@)),
    {
        let ghost fv = f@;
        let mut r = f;
        let mut i: usize = 0;
        while i < args.len()
            invariant
                i <= args@.len(),
                r@ == mk_spine(fv, exprs_view(args@).take(i as int)),
            decreases args@.len() - i,
        {
            proof {
                let av = exprs_view(args@);
                assert(av.take(i + 1).drop_last() =~= av.take(i as int));
            }
            r = Expr::app(r, share(&args[i]));
            i = i + 1;
        }
        proof {
            assert(exprs_view(args@).take(i as int) =~= exprs_view(args@));
        }
        r
    }

    pub fn is_bvar(&self) -> (r: bool)
        ensures
            r == (self@ is BVar),
    {
        match &self.node {
            ExprNode::BVar { .. } => true,
            _ => false,
        }
    }

    pub fn is_fvar(&self) -> (r: bool)
        ensures
            r == (self@ is FVar),
    {
        match &self.node {
            ExprNode::FVar { .. } => true,
            _ => false,
        }
    }

    pub fn is_mvar(&self) -> (r: bool)
        ensures
            r == (self@ is MVar),
    {
        match &self.node {
            ExprNode::MVar { .. } => true,
            _ => false,
        }
    }

    pub fn is_sort(&self) -> (r: bool)
        ensures
            r == (self@ is Sort),
    {
        match &self.node {
            ExprNode::Sort { .. } => true,
            _ => false,
        }
    }

    pub fn is_const(&self) -> (r: bool)
        ensures
            r == (self@ is Const),
    {
        match &self.node {
            ExprNode::Const { .. } => true,
            _ => false,
        }
    }

    pub fn is_app(&self) -> (r: bool)
        ensures
            r == (self@ is App),
    {
        match &self.node {
            ExprNode::App { .. } => true,
            _ => false,
        }
    }

    pub fn is_lambda(&self) -> (r: bool)
        ensures
            r == (self@ is Lam),
    {
        match &self.node {
            ExprNode::Lam { .. } => true,
            _ => false,
        }
    }

    pub fn is_forall(&self) -> (r: bool)
        ensures
            r == (self@ is ForallE),
    {
        match &self.node {
            ExprNode::ForallE { .. } => true,
            _ => false,
        }
    }

    pub fn is_let(&self) -> (r: bool)
        ensures
            r == (self@ is LetE),
    {
        match &self.node {
            ExprNode::LetE { .. } => true,
            _ => false,
        }
    }

    pub fn is_proj(&self) -> (r: bool)
        ensures
            r == (self@ is Proj),
    {
        match &self.node {
            ExprNode::Proj { .. } => true,
            _ => false,
        }
    }

    pub fn is_lit(&self) -> (r: bool)
        ensures
            r == (self@ is Lit),
    {
        match &self.node {
            ExprNode::Lit(_) => true,
            _ => false,
        }
    }

    pub fn is_mdata(&self) -> (r: bool)
        ensures
            r == (self@ is MData),
    {
        match &self.node {
            ExprNode::MData { .. } => true,
            _ => false,
        }
    }

    /// The name of a constant.
    pub fn const_name(&self) -> (r: Option<&Arc<Name>>)
        ensures
            match self@ {
                SExpr::Const(n, _) => r matches Some(x) && x@ == n,
                _ => r is None,
            },
    {
        match &self.node {
            ExprNode::Const { name, .. } => Some(name),
            _ => None,
        }
    }
}

impl Clone for Literal {
    fn clone(&self) -> (r: Literal)
        ensures
            r@ == self@,
    {
        match self {
            Literal::NatVal(n) => Literal::NatVal(n.clone()),
            Literal::StrVal(s) => Literal::StrVal(s.clone()),
        }
    }
}

impl Clone for DataValue {
    fn clone(&self) -> (r: DataValue)
        ensures
            r@ == self@,
    {
        match self {
            DataValue::OfString(s) => DataValue::OfString(s.clone()),
            DataValue::OfBool(b) => DataValue::OfBool(*b),
            DataValue::OfName(n) => DataValue::OfName(share(n)),
            DataValue::OfNat(n) => DataValue::OfNat(n.clone()),
            DataValue::OfInt(i) => DataValue::OfInt(i.clone()),
            DataValue::OfSyntax(x) => DataValue::OfSyntax(share(x)),
        }
    }
}

impl Clone for KVMap {
    fn clone(&self) -> (r: KVMap)
        ensures
            r@ == self@,
    {
        let mut out: Vec<(Arc<Name>, DataValue)> = Vec::new();
        let mut i: usize = 0;
        while i < self.0.len()
            invariant
                i <= self.0@.len(),
                out@.len() == i,
                forall|j: int| 0 <= j < i ==> kv_entry_view(#[trigger] out@[j]) == kv_entry_view(
                    self.0@[j],
                ),
            decreases self.0@.len() - i,
        {
            let (n, v) = &self.0[i];
            out.push((share(n), v.clone()));
            i = i + 1;
        }
        let r = KVMap(out);
        proof {
            assert(r@ =~= self@);
        }
        r
    }
}

// ---------------------------------------------------------------------
// Rebuilding a node with new children, sharing it when nothing changed.
// ---------------------------------------------------------------------

/// `e` with its two children expressions replaced by `x` and `y`.
pub open spec fn with_children2(e: SExpr, x: SExpr, y: SExpr) -> SExpr {
    match e {
        SExpr::App(_, _) => SExpr::App(Box::new(x), Box::new(y)),
        SExpr::Lam(n, _, _, bi) => SExpr::Lam(n, Box::new(x), Box::new(y), bi),
        SExpr::ForallE(n, _, _, bi) => SExpr::ForallE(n, Box::new(x), Box::new(y), bi),
        _ => e,
    }
}

/// `e` (a `let`) with its type, value and body replaced.
pub open spec fn with_children3(e: SExpr, x: SExpr, y: SExpr, z: SExpr) -> SExpr {
    match e {
        SExpr::LetE(n, _, _, _, nd) => SExpr::LetE(n, Box::new(x), Box::new(y), Box::new(z), nd),
        _ => e,
    }
}

/// `e` (metadata or a projection) with its one child replaced.
pub open spec fn with_child(e: SExpr, x: SExpr) -> SExpr {
    match e {
        SExpr::MData(m, _) => SExpr::MData(m, Box::new(x)),
        SExpr::Proj(n, i, _) => SExpr::Proj(n, i, Box::new(x)),
        _ => e,
    }
}

/// The node `e` with children `x` and `y`; `e` itself when they are its
/// own children.
pub(crate) fn rebuild2(e: &Arc<Expr>, x: Arc<Expr>, y: Arc<Expr>) -> (r: Arc<Expr>)
    requires
        e@ is App || e@ is Lam || e@ is ForallE,
    ensures
        r@ == with_children2(e@, x@, y@),
{
    match &(**e).node {
        ExprNode::App { f, arg } => {
            if same_node(&x, f) && same_node(&y, arg) {
                share(e)
            } else {
                Expr::app(x, y)
            }
        },
        ExprNode::Lam { binder_name, binder_type, body, binder_info } => {
            if same_node(&x, binder_type) && same_node(&y, body) {
                share(e)
            } else {
                Expr::lam(share(binder_name), x, y, *binder_info)
            }
        },
        ExprNode::ForallE { binder_name, binder_type, body, binder_info } => {
            if same_node(&x, binder_type) && same_node(&y, body) {
                share(e)
            } else {
                Expr::forall_e(share(binder_name), x, y, *binder_info)
            }
        },
        _ => share(e),
    }
}

/// The `let` node `e` with type `x`, value `y` and body `z`; `e` itself
/// when they are its own.
pub(crate) fn rebuild3(e: &Arc<Expr>, x: Arc<Expr>, y: Arc<Expr>, z: Arc<Expr>) -> (r: Arc<Expr>)
    requires
        e@ is LetE,
    ensures
        r@ == with_children3(e@, x@, y@, z@),
{
    match &(**e).node {
        ExprNode::LetE { decl_name, ty, value, body, non_dep } => {
            if same_node(&x, ty) && same_node(&y, value) && same_node(&z, body) {
                share(e)
            } else {
                Expr::let_e(share(decl_name), x, y, z, *non_dep)
            }
        },
        _ => share(e),
    }
}

/// The metadata or projection node `e` with child `x`; `e` itself when
/// `x` is its own child.
pub(crate) fn rebuild1(e: &Arc<Expr>, x: Arc<Expr>) -> (r: Arc<Expr>)
    requires
        e@ is MData || e@ is Proj,
    ensures
        r@ == with_child(e@, x@),
{
    match &(**e).node {
        ExprNode::MData { data, expr } => {
            if same_node(&x, expr) {
                share(e)
            } else {
                Expr::mdata(data.clone(), x)
            }
        },
        ExprNode::Proj { struct_name, idx, structure } => {
            if same_node(&x, structure) {
                share(e)
            } else {
                Expr::proj(share(struct_name), idx.clone(), x)
            }
        },
        _ => share(e),
    }
}

} // verus!
