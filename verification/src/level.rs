//! Universe levels: structural equality, hashing, the normalizing smart
//! constructors for `max`/`imax`, parameter instantiation, normalization
//! and equivalence.
//!
//! Every operation is specified by a function on the level's view
//! (`SLevel`), and the laws at the end of the file relate those functions
//! to the meaning of a level: its value under an assignment of naturals to
//! parameters and metavariables (`level_eval`).
use crate::error::KernelError;
use crate::guard::{RecGuard, MAX_REC_DEPTH};
use crate::hashing::mix;
use crate::name::{name_hash, name_lt, Name, NameComp};
use crate::shared::{same_node, share};
use std::sync::Arc;
use vstd::prelude::*;

verus! {

/// Universe level.
#[derive(Debug)]
pub enum Level {
    Zero,
    Succ(Arc<Level>),
    Max(Arc<Level>, Arc<Level>),
    IMax(Arc<Level>, Arc<Level>),
    Param(Arc<Name>),
    MVar(Arc<Name>),
}

/// The view of a level: the same tree with names as component lists.
pub enum SLevel {
    Zero,
    Succ(Box<SLevel>),
    Max(Box<SLevel>, Box<SLevel>),
    IMax(Box<SLevel>, Box<SLevel>),
    Param(Seq<NameComp>),
    MVar(Seq<NameComp>),
}

pub open spec fn level_view(l: Level) -> SLevel
    decreases l,
{
    match l {
        Level::Zero => SLevel::Zero,
        Level::Succ(a) => SLevel::Succ(Box::new(level_view(*a))),
        Level::Max(a, b) => SLevel::Max(Box::new(level_view(*a)), Box::new(level_view(*b))),
        Level::IMax(a, b) => SLevel::IMax(Box::new(level_view(*a)), Box::new(level_view(*b))),
        Level::Param(n) => SLevel::Param(n@),
        Level::MVar(n) => SLevel::MVar(n@),
    }
}

impl View for Level {
    type V = SLevel;

    open spec fn view(&self) -> SLevel {
        level_view(*self)
    }
}

// ---------------------------------------------------------------------
// Meaning of a level.
// ---------------------------------------------------------------------

/// The value of `l` when parameters take the values `ps` and
/// metavariables the values `ms`. `imax a b` is `0` when `b` is `0`, else
/// `max a b`.
pub open spec fn level_eval(
    l: SLevel,
    ps: spec_fn(Seq<NameComp>) -> nat,
    ms: spec_fn(Seq<NameComp>) -> nat,
) -> nat
    decreases l,
{
    match l {
        SLevel::Zero => 0,
        SLevel::Succ(a) => level_eval(*a, ps, ms) + 1,
        SLevel::Max(a, b) => {
            let x = level_eval(*a, ps, ms);
            let y = level_eval(*b, ps, ms);
            if x >= y {
                x
            } else {
                y
            }
        },
        SLevel::IMax(a, b) => {
            let x = level_eval(*a, ps, ms);
            let y = level_eval(*b, ps, ms);
            if y == 0 {
                0
            } else if x >= y {
                x
            } else {
                y
            }
        },
        SLevel::Param(n) => ps(n),
        SLevel::MVar(n) => ms(n),
    }
}

// ---------------------------------------------------------------------
// Structural helpers on views.
// ---------------------------------------------------------------------

/// Nesting depth: the guard frames a full traversal needs.
pub open spec fn level_height(l: SLevel) -> nat
    decreases l,
{
    match l {
        SLevel::Succ(a) => 1 + level_height(*a),
        SLevel::Max(a, b) | SLevel::IMax(a, b) => {
            let x = level_height(*a);
            let y = level_height(*b);
            1 + if x >= y {
                x
            } else {
                y
            }
        },
        _ => 0,
    }
}

/// Number of nodes.
pub open spec fn level_size(l: SLevel) -> nat
    decreases l,
{
    match l {
        SLevel::Succ(a) => 1 + level_size(*a),
        SLevel::Max(a, b) | SLevel::IMax(a, b) => 1 + level_size(*a) + level_size(*b),
        _ => 1,
    }
}

/// The most `Succ` nodes on any root-to-leaf path.
pub open spec fn succ_depth(l: SLevel) -> nat
    decreases l,
{
    match l {
        SLevel::Succ(a) => 1 + succ_depth(*a),
        SLevel::Max(a, b) | SLevel::IMax(a, b) => {
            let x = succ_depth(*a);
            let y = succ_depth(*b);
            if x >= y {
                x
            } else {
                y
            }
        },
        _ => 0,
    }
}

/// Number of leading `Succ` nodes.
pub open spec fn succ_count(l: SLevel) -> nat
    decreases l,
{
    match l {
        SLevel::Succ(a) => 1 + succ_count(*a),
        _ => 0,
    }
}

/// `l` with its leading `Succ` nodes stripped.
pub open spec fn offset_base(l: SLevel) -> SLevel
    decreases l,
{
    match l {
        SLevel::Succ(a) => offset_base(*a),
        _ => l,
    }
}

/// The leading `Succ` count as the checker counts it: saturating at
/// `u64::MAX`.
pub open spec fn offset_k(l: SLevel) -> nat {
    if succ_count(l) < u64::MAX {
        succ_count(l)
    } else {
        u64::MAX as nat
    }
}

/// `k` `Succ` nodes over `l`.
pub open spec fn succ_n(l: SLevel, k: nat) -> SLevel
    decreases k,
{
    if k == 0 {
        l
    } else {
        SLevel::Succ(Box::new(succ_n(l, (k - 1) as nat)))
    }
}

/// A numeral `succ^k(zero)`.
pub open spec fn is_explicit(l: SLevel) -> bool {
    offset_base(l) is Zero
}

/// The numeral `1`.
pub open spec fn is_one(l: SLevel) -> bool {
    offset_k(l) == 1 && offset_base(l) is Zero
}

pub open spec fn spec_never_zero(l: SLevel) -> bool
    decreases l,
{
    match l {
        SLevel::Succ(_) => true,
        SLevel::Max(a, b) => spec_never_zero(*a) || spec_never_zero(*b),
        SLevel::IMax(_, b) => spec_never_zero(*b),
        _ => false,
    }
}

pub open spec fn spec_has_mvar(l: SLevel) -> bool
    decreases l,
{
    match l {
        SLevel::MVar(_) => true,
        SLevel::Succ(a) => spec_has_mvar(*a),
        SLevel::Max(a, b) | SLevel::IMax(a, b) => spec_has_mvar(*a) || spec_has_mvar(*b),
        _ => false,
    }
}

pub open spec fn spec_has_param(l: SLevel) -> bool
    decreases l,
{
    match l {
        SLevel::Param(_) => true,
        SLevel::Succ(a) => spec_has_param(*a),
        SLevel::Max(a, b) | SLevel::IMax(a, b) => spec_has_param(*a) || spec_has_param(*b),
        _ => false,
    }
}

/// Structural hash of a level.
pub open spec fn level_hash(l: SLevel) -> u64
    decreases l,
{
    match l {
        SLevel::Zero => mix(0, 0),
        SLevel::Succ(a) => mix(1, level_hash(*a)),
        SLevel::Max(a, b) => mix(mix(2, level_hash(*a)), level_hash(*b)),
        SLevel::IMax(a, b) => mix(mix(3, level_hash(*a)), level_hash(*b)),
        SLevel::Param(n) => mix(4, name_hash(n)),
        SLevel::MVar(n) => mix(5, name_hash(n)),
    }
}

/// The normalizing binary `max`.
pub open spec fn spec_mk_max(l1: SLevel, l2: SLevel) -> SLevel {
    if is_explicit(l1) && is_explicit(l2) {
        if offset_k(l1) >= offset_k(l2) {
            l1
        } else {
            l2
        }
    } else if l1 == l2 {
        l1
    } else if l1 is Zero {
        l2
    } else if l2 is Zero {
        l1
    } else if l2 matches SLevel::Max(a, b) && (*a == l1 || *b == l1) {
        l2
    } else if l1 matches SLevel::Max(a, b) && (*a == l2 || *b == l2) {
        l1
    } else if offset_base(l1) == offset_base(l2) {
        if offset_k(l1) > offset_k(l2) {
            l1
        } else {
            l2
        }
    } else {
        SLevel::Max(Box::new(l1), Box::new(l2))
    }
}

/// The normalizing binary `imax`.
pub open spec fn spec_mk_imax(l1: SLevel, l2: SLevel) -> SLevel {
    if spec_never_zero(l2) {
        spec_mk_max(l1, l2)
    } else if l2 is Zero {
        l2
    } else if l1 is Zero || is_one(l1) {
        l2
    } else if l1 == l2 {
        l1
    } else {
        SLevel::IMax(Box::new(l1), Box::new(l2))
    }
}

/// The first argument paired with parameter `n`, among the first
/// `min(ps.len(), args.len())` pairs.
pub open spec fn param_index(ps: Seq<Seq<NameComp>>, args: Seq<SLevel>, n: Seq<NameComp>) -> int {
    choose|i: int|
        0 <= i < ps.len() && i < args.len() && ps[i] == n && forall|j: int|
            0 <= j < i ==> ps[j] != n
}

pub open spec fn has_param_index(ps: Seq<Seq<NameComp>>, args: Seq<SLevel>, n: Seq<NameComp>) -> bool {
    exists|i: int| 0 <= i < ps.len() && i < args.len() && ps[i] == n
}

/// Parameter instantiation, rebuilding changed nodes through the
/// normalizing constructors; the flag says whether anything changed.
pub open spec fn spec_inst(l: SLevel, ps: Seq<Seq<NameComp>>, args: Seq<SLevel>) -> (SLevel, bool)
    decreases l,
{
    if !spec_has_param(l) {
        (l, false)
    } else {
        match l {
            SLevel::Param(n) => {
                if has_param_index(ps, args, n) {
                    (args[param_index(ps, args, n)], true)
                } else {
                    (l, false)
                }
            },
            SLevel::Succ(a) => {
                let (a2, c) = spec_inst(*a, ps, args);
                if c {
                    (SLevel::Succ(Box::new(a2)), true)
                } else {
                    (l, false)
                }
            },
            SLevel::Max(a, b) => {
                let (a2, ca) = spec_inst(*a, ps, args);
                let (b2, cb) = spec_inst(*b, ps, args);
                if ca || cb {
                    (spec_mk_max(a2, b2), true)
                } else {
                    (l, false)
                }
            },
            SLevel::IMax(a, b) => {
                let (a2, ca) = spec_inst(*a, ps, args);
                let (b2, cb) = spec_inst(*b, ps, args);
                if ca || cb {
                    (spec_mk_imax(a2, b2), true)
                } else {
                    (l, false)
                }
            },
            _ => (l, false),
        }
    }
}

/// The assignment seen inside `l` after instantiation: a parameter
/// paired with an argument takes that argument's value.
pub open spec fn inst_assignment(
    ps: Seq<Seq<NameComp>>,
    args: Seq<SLevel>,
    vp: spec_fn(Seq<NameComp>) -> nat,
    vm: spec_fn(Seq<NameComp>) -> nat,
) -> spec_fn(Seq<NameComp>) -> nat {
    |n: Seq<NameComp>|
        if has_param_index(ps, args, n) {
            level_eval(args[param_index(ps, args, n)], vp, vm)
        } else {
            vp(n)
        }
}

/// Kind rank in the order `Zero, Succ, Max, IMax, Param, MVar`.
pub open spec fn kind_rank(l: SLevel) -> u8 {
    match l {
        SLevel::Zero => 0,
        SLevel::Succ(_) => 1,
        SLevel::Max(..) => 2,
        SLevel::IMax(..) => 3,
        SLevel::Param(_) => 4,
        SLevel::MVar(_) => 5,
    }
}

/// The total order `normalize` sorts `max` arguments by: by base, then by
/// offset.
pub open spec fn spec_norm_lt(a: SLevel, b: SLevel) -> bool
    decreases level_size(a),
{
    let l1 = offset_base(a);
    let l2 = offset_base(b);
    if l1 == l2 {
        offset_k(a) < offset_k(b)
    } else if kind_rank(l1) != kind_rank(l2) {
        kind_rank(l1) < kind_rank(l2)
    } else {
        proof {
            lemma_offset_base_size(a);
        }
        match (l1, l2) {
            (SLevel::Param(x), SLevel::Param(y)) => name_lt(x, y),
            (SLevel::MVar(x), SLevel::MVar(y)) => name_lt(x, y),
            (SLevel::Max(la, ra), SLevel::Max(lb, rb)) => {
                if *la != *lb {
                    spec_norm_lt(*la, *lb)
                } else {
                    spec_norm_lt(*ra, *rb)
                }
            },
            (SLevel::IMax(la, ra), SLevel::IMax(lb, rb)) => {
                if *la != *lb {
                    spec_norm_lt(*la, *lb)
                } else {
                    spec_norm_lt(*ra, *rb)
                }
            },
            _ => false,
        }
    }
}

/// Nested `Max` nodes flattened into their argument list.
pub open spec fn spec_max_args(l: SLevel) -> Seq<SLevel>
    decreases l,
{
    match l {
        SLevel::Max(a, b) => spec_max_args(*a) + spec_max_args(*b),
        _ => seq![l],
    }
}

/// Total size of a list of levels.
pub open spec fn sizes(s: Seq<SLevel>) -> nat
    decreases s.len(),
{
    if s.len() == 0 {
        0
    } else {
        sizes(s.drop_last()) + level_size(s.last())
    }
}

/// Where `x` goes in the sorted list `s`: after the last element it is
/// not below.
pub open spec fn ins_pos(s: Seq<SLevel>, x: SLevel) -> nat
    decreases s.len(),
{
    if s.len() == 0 {
        0
    } else if spec_norm_lt(x, s.last()) {
        ins_pos(s.drop_last(), x)
    } else {
        s.len()
    }
}

/// Stable insertion sort by `spec_norm_lt`.
pub open spec fn spec_sort(s: Seq<SLevel>) -> Seq<SLevel>
    decreases s.len(),
{
    if s.len() == 0 {
        s
    } else {
        let t = spec_sort(s.drop_last());
        t.insert(ins_pos(t, s.last()) as int, s.last())
    }
}

/// End of the run of numerals starting at index `i`.
pub open spec fn explicit_run_end(s: Seq<SLevel>, i: nat) -> nat
    decreases s.len() - i,
{
    if i + 1 < s.len() && is_explicit(s[(i + 1) as int]) {
        explicit_run_end(s, i + 1)
    } else {
        i
    }
}

/// Whether some argument from index `j` on has offset at least `k`.
pub open spec fn offset_reaches(s: Seq<SLevel>, j: nat, k: nat) -> bool
    decreases s.len() - j,
{
    if j >= s.len() {
        false
    } else if offset_k(s[j as int]) >= k {
        true
    } else {
        offset_reaches(s, j + 1, k)
    }
}

/// First kept index of the sorted arguments: the largest numeral is
/// dropped when some argument has an offset at least as large.
pub open spec fn dedup_start(s: Seq<SLevel>) -> nat {
    if is_explicit(s[0]) {
        let i = explicit_run_end(s, 0);
        if offset_reaches(s, i + 1, offset_k(s[i as int])) {
            i + 1
        } else {
            i
        }
    } else {
        0
    }
}

/// Keeps, of each run of arguments with one base, the largest offset.
pub open spec fn dedup_from(s: Seq<SLevel>, t: nat, acc: Seq<SLevel>) -> Seq<SLevel>
    decreases s.len() - t,
{
    if t >= s.len() {
        acc
    } else {
        let cur = s[t as int];
        if offset_base(cur) == offset_base(acc.last()) {
            if offset_k(acc.last()) < offset_k(cur) {
                dedup_from(s, t + 1, acc.drop_last().push(cur))
            } else {
                dedup_from(s, t + 1, acc)
            }
        } else {
            dedup_from(s, t + 1, acc.push(cur))
        }
    }
}

/// Right-associated `max` of `s[i..]` through the normalizing constructor.
pub open spec fn spec_max_list_from(s: Seq<SLevel>, i: nat) -> SLevel
    decreases s.len() - i,
{
    if i + 1 >= s.len() {
        s[i as int]
    } else {
        spec_mk_max(s[i as int], spec_max_list_from(s, i + 1))
    }
}

pub open spec fn spec_max_list(s: Seq<SLevel>) -> SLevel {
    if s.len() == 0 {
        SLevel::Zero
    } else {
        spec_max_list_from(s, 0)
    }
}

/// `k` successors over each level of `s`.
pub open spec fn succ_each(s: Seq<SLevel>, k: nat) -> Seq<SLevel> {
    Seq::new(s.len(), |i: int| succ_n(s[i], k))
}

/// Normal form of a level.
pub open spec fn spec_normalize(l: SLevel) -> SLevel
    decreases level_size(l), 2nat,
{
    let base = offset_base(l);
    let k = offset_k(l);
    proof {
        lemma_offset_base_size(l);
    }
    match base {
        SLevel::IMax(lhs, rhs) => succ_n(
            spec_mk_imax(spec_normalize(*lhs), spec_normalize(*rhs)),
            k,
        ),
        SLevel::Max(_, _) => spec_normalize_max(base, k),
        _ => l,
    }
}

/// The normalized arguments of the `max` arguments `s`, each flattened.
pub open spec fn spec_normalize_args(s: Seq<SLevel>) -> Seq<SLevel>
    decreases sizes(s), 3nat,
{
    if s.len() == 0 {
        Seq::empty()
    } else {
        proof {
            lemma_sizes_last(s);
        }
        spec_normalize_args(s.drop_last()) + spec_max_args(spec_normalize(s.last()))
    }
}

/// Normal form of `succ^k(base)` where `base` is a `max`.
pub open spec fn spec_normalize_max(base: SLevel, k: nat) -> SLevel
    decreases level_size(base), 1nat,
{
    if base is Max {
        proof {
            lemma_max_args_sizes(base);
        }
        let sorted = spec_sort(spec_normalize_args(spec_max_args(base)));
        let start = dedup_start(sorted);
        let kept = dedup_from(sorted, start + 1, seq![sorted[start as int]]);
        spec_max_list(succ_each(kept, k))
    } else {
        base
    }
}

/// Equivalence as the checker decides it: equal, or equal normal forms.
pub open spec fn spec_is_equivalent(a: SLevel, b: SLevel) -> bool {
    a == b || spec_normalize(a) == spec_normalize(b)
}

pub proof fn lemma_offset_base_size(l: SLevel)
    ensures
        level_size(offset_base(l)) <= level_size(l),
    decreases l,
{
    if let SLevel::Succ(a) = l {
        lemma_offset_base_size(*a);
    }
}

pub proof fn lemma_sizes_last(s: Seq<SLevel>)
    requires
        s.len() > 0,
    ensures
        level_size(s.last()) <= sizes(s),
        sizes(s.drop_last()) < sizes(s),
{
    lemma_size_positive(s.last());
}

pub proof fn lemma_size_positive(l: SLevel)
    ensures
        level_size(l) >= 1,
{
}

pub proof fn lemma_sizes_append(a: Seq<SLevel>, b: Seq<SLevel>)
    ensures
        sizes(a + b) == sizes(a) + sizes(b),
    decreases b.len(),
{
    if b.len() > 0 {
        assert((a + b).drop_last() =~= a + b.drop_last());
        lemma_sizes_append(a, b.drop_last());
    } else {
        assert(a + b =~= a);
    }
}

pub proof fn lemma_max_args_sizes_le(l: SLevel)
    ensures
        sizes(spec_max_args(l)) <= level_size(l),
    decreases l,
{
    match l {
        SLevel::Max(a, b) => {
            lemma_max_args_sizes_le(*a);
            lemma_max_args_sizes_le(*b);
            lemma_sizes_append(spec_max_args(*a), spec_max_args(*b));
        },
        _ => {
            assert(seq![l].drop_last() =~= Seq::<SLevel>::empty());
            assert(seq![l].last() == l);
            assert(sizes(Seq::<SLevel>::empty()) == 0);
        },
    }
}

pub proof fn lemma_max_args_sizes(l: SLevel)
    requires
        l is Max,
    ensures
        sizes(spec_max_args(l)) < level_size(l),
{
    if let SLevel::Max(a, b) = l {
        lemma_max_args_sizes_le(*a);
        lemma_max_args_sizes_le(*b);
        lemma_sizes_append(spec_max_args(*a), spec_max_args(*b));
    }
}

/// The views of a list of names.
pub open spec fn names_view(s: Seq<Arc<Name>>) -> Seq<Seq<NameComp>> {
    Seq::new(s.len(), |i: int| s[i]@)
}

/// The views of a list of levels.
pub open spec fn levels_view(s: Seq<Arc<Level>>) -> Seq<SLevel> {
    Seq::new(s.len(), |i: int| s[i]@)
}

pub proof fn lemma_offset_base_height(l: SLevel)
    ensures
        level_height(offset_base(l)) <= level_height(l),
    decreases l,
{
    if let SLevel::Succ(a) = l {
        lemma_offset_base_height(*a);
    }
}

/// Whether a full traversal of `l` fits under the guard's cap.
/// A parameter that has a partner has a first one.
proof fn lemma_first_param(ps: Seq<Seq<NameComp>>, av: Seq<SLevel>, n: Seq<NameComp>, w: int)
    requires
        0 <= w < ps.len(),
        w < av.len(),
        ps[w] == n,
    ensures
        exists|i: int|
            0 <= i < ps.len() && i < av.len() && ps[i] == n && forall|j: int| 0 <= j < i ==> ps[j] != n,
    decreases w,
{
    if exists|j: int| 0 <= j < w && ps[j] == n {
        let j = choose|j: int| 0 <= j < w && ps[j] == n;
        lemma_first_param(ps, av, n, j);
    } else {
        assert(forall|j: int| 0 <= j < w ==> ps[j] != n);
    }
}

pub proof fn lemma_mk_max_height(x: SLevel, y: SLevel)
    ensures
        level_height(spec_mk_max(x, y)) <= 1 + crate::expr::max_nat(level_height(x), level_height(y)),
{
}

pub proof fn lemma_mk_imax_height(x: SLevel, y: SLevel)
    ensures
        level_height(spec_mk_imax(x, y)) <= 1 + crate::expr::max_nat(level_height(x), level_height(y)),
{
    lemma_mk_max_height(x, y);
}

/// Instantiating parameters makes a level taller by at most the tallest
/// argument.
pub proof fn lemma_inst_height(l: SLevel, ps: Seq<Seq<NameComp>>, av: Seq<SLevel>)
    ensures
        level_height(spec_inst(l, ps, av).0) <= level_height(l) + crate::expr::levels_height(av),
    decreases l,
{
    if spec_has_param(l) {
        match l {
            SLevel::Param(n) => {
                if has_param_index(ps, av, n) {
                    let w = choose|w: int| 0 <= w < ps.len() && w < av.len() && ps[w] == n;
                    lemma_first_param(ps, av, n, w);
                    crate::expr::lemma_levels_height(av, param_index(ps, av, n));
                }
            },
            SLevel::Succ(a) => {
                lemma_inst_height(*a, ps, av);
            },
            SLevel::Max(a, b) => {
                lemma_inst_height(*a, ps, av);
                lemma_inst_height(*b, ps, av);
                lemma_mk_max_height(spec_inst(*a, ps, av).0, spec_inst(*b, ps, av).0);
            },
            SLevel::IMax(a, b) => {
                lemma_inst_height(*a, ps, av);
                lemma_inst_height(*b, ps, av);
                lemma_mk_imax_height(spec_inst(*a, ps, av).0, spec_inst(*b, ps, av).0);
            },
            _ => {},
        }
    }
}

pub open spec fn level_fits(g: RecGuard, l: SLevel) -> bool {
    g.depth() + level_height(l) <= MAX_REC_DEPTH
}

// ---------------------------------------------------------------------
// Executable operations.
// ---------------------------------------------------------------------

impl Level {
    /// `succ(l)`; `Succ` has no normalization rule of its own.
    pub fn mk_succ(l: Arc<Level>) -> (r: Arc<Level>)
        ensures
            r@ == SLevel::Succ(Box::new(l@)),
    {
        Arc::new(Level::Succ(l))
    }

    /// Peels `Succ` nodes into `(base, k)` with `l == succ^k(base)`; `k`
    /// saturates at `u64::MAX`. A loop, so safe on deep chains.
    pub fn to_offset(l: &Arc<Level>) -> (r: (&Arc<Level>, u64))
        ensures
            r.0@ == offset_base(l@),
            r.1 == offset_k(l@),
    {
        let mut cur: &Arc<Level> = l;
        let mut k: u64 = 0;
        loop
            invariant
                offset_base(cur@) == offset_base(l@),
                k <= u64::MAX,
                (k as nat + succ_count(cur@) < u64::MAX ==> succ_count(l@) == k + succ_count(cur@)),
                (k as nat + succ_count(cur@) >= u64::MAX ==> succ_count(l@) >= u64::MAX) || k
                    == u64::MAX,
                k == u64::MAX ==> succ_count(l@) >= u64::MAX,
                k < u64::MAX ==> succ_count(l@) == k + succ_count(cur@),
            decreases cur@,
        {
            match &**cur {
                Level::Succ(inner) => {
                    cur = inner;
                    k = k.saturating_add(1);
                },
                _ => {
                    return (cur, k);
                },
            }
        }
    }

    /// `true` iff this is `Zero`.
    pub fn is_zero(&self) -> (r: bool)
        ensures
            r == (self@ is Zero),
    {
        match self {
            Level::Zero => true,
            _ => false,
        }
    }

    /// Whether `l` is positive under every assignment: `Succ` is, `Max` is
    /// when either side is, `IMax` when its right side is.
    pub fn is_never_zero(l: &Arc<Level>, g: &mut RecGuard) -> (r: Result<bool, KernelError>)
        ensures
            *final(g) == *old(g),
            r matches Ok(b) ==> b == spec_never_zero(l@),
            r matches Err(e) ==> e is DeepRecursion,
            old(g).depth() + level_height(l@) <= MAX_REC_DEPTH ==> r is Ok,
        decreases l,
    {
        match &**l {
            Level::Zero | Level::Param(_) | Level::MVar(_) => Ok(false),
            Level::Succ(_) => Ok(true),
            Level::Max(a, b) => {
                let a = share(a);
                let b = share(b);
                let f = move |g2: RecGuard| -> (r: Result<bool, KernelError>)
                        ensures
                            r matches Ok(x) ==> x == (spec_never_zero(a@) || spec_never_zero(b@)),
                            r matches Err(e) ==> e is DeepRecursion,
                            level_fits(g2, a@) && level_fits(g2, b@) ==> r is Ok,
                        {
                            let mut g3 = g2;
                            match Level::is_never_zero(&a, &mut g3) {
                                Err(e) => Err(e),
                                Ok(true) => Ok(true),
                                Ok(false) => Level::is_never_zero(&b, &mut g3),
                            }
                        };
                g.enter(f)
            },
            Level::IMax(_, rhs) => {
                let rhs = share(rhs);
                let f = move |g2: RecGuard| -> (r: Result<bool, KernelError>)
                        ensures
                            r matches Ok(x) ==> x == spec_never_zero(rhs@),
                            r matches Err(e) ==> e is DeepRecursion,
                            level_fits(g2, rhs@) ==> r is Ok,
                        {
                            let mut g3 = g2;
                            Level::is_never_zero(&rhs, &mut g3)
                        };
                g.enter(f)
            },
        }
    }

    /// Structural equality (names compared by value), with a pointer fast
    /// path.
    pub fn structural_eq(a: &Arc<Level>, b: &Arc<Level>, g: &mut RecGuard) -> (r: Result<
        bool,
        KernelError,
    >)
        ensures
            *final(g) == *old(g),
            r matches Ok(x) ==> x == (a@ == b@),
            r matches Err(e) ==> e is DeepRecursion,
            old(g).depth() + level_height(a@) <= MAX_REC_DEPTH ==> r is Ok,
        decreases a,
    {
        if same_node(a, b) {
            return Ok(true);
        }
        match (&**a, &**b) {
            (Level::Zero, Level::Zero) => Ok(true),
            (Level::Param(na), Level::Param(nb)) => Ok(na.equal(nb)),
            (Level::MVar(na), Level::MVar(nb)) => Ok(na.equal(nb)),
            (Level::Succ(la), Level::Succ(lb)) => {
                let la = share(la);
                let lb = share(lb);
                let f = move |g2: RecGuard| -> (r: Result<bool, KernelError>)
                        ensures
                            r matches Ok(x) ==> x == (la@ == lb@),
                            r matches Err(e) ==> e is DeepRecursion,
                            level_fits(g2, la@) ==> r is Ok,
                        {
                            let mut g3 = g2;
                            Level::structural_eq(&la, &lb, &mut g3)
                        };
                g.enter(f)
            },
            (Level::Max(la, ra), Level::Max(lb, rb)) => {
                let (la, ra, lb, rb) = (share(la), share(ra), share(lb), share(rb));
                let f = move |g2: RecGuard| -> (r: Result<bool, KernelError>)
                        ensures
                            r matches Ok(x) ==> x == (la@ == lb@ && ra@ == rb@),
                            r matches Err(e) ==> e is DeepRecursion,
                            level_fits(g2, la@) && level_fits(g2, ra@) ==> r is Ok,
                        {
                            let mut g3 = g2;
                            match Level::structural_eq(&la, &lb, &mut g3) {
                                Err(e) => Err(e),
                                Ok(false) => Ok(false),
                                Ok(true) => Level::structural_eq(&ra, &rb, &mut g3),
                            }
                        };
                g.enter(f)
            },
            (Level::IMax(la, ra), Level::IMax(lb, rb)) => {
                let (la, ra, lb, rb) = (share(la), share(ra), share(lb), share(rb));
                let f = move |g2: RecGuard| -> (r: Result<bool, KernelError>)
                        ensures
                            r matches Ok(x) ==> x == (la@ == lb@ && ra@ == rb@),
                            r matches Err(e) ==> e is DeepRecursion,
                            level_fits(g2, la@) && level_fits(g2, ra@) ==> r is Ok,
                        {
                            let mut g3 = g2;
                            match Level::structural_eq(&la, &lb, &mut g3) {
                                Err(e) => Err(e),
                                Ok(false) => Ok(false),
                                Ok(true) => Level::structural_eq(&ra, &rb, &mut g3),
                            }
                        };
                g.enter(f)
            },
            _ => Ok(false),
        }
    }

    /// Structural hash (`level_hash`): equal levels hash alike.
    pub fn hash_val(l: &Arc<Level>, g: &mut RecGuard) -> (r: Result<u64, KernelError>)
        ensures
            *final(g) == *old(g),
            r matches Ok(h) ==> h == level_hash(l@),
            r matches Err(e) ==> e is DeepRecursion,
            old(g).depth() + level_height(l@) <= MAX_REC_DEPTH ==> r is Ok,
        decreases l,
    {
        match &**l {
            Level::Zero => Ok(mix(0, 0)),
            Level::Param(n) => Ok(mix(4, n.hash_u64())),
            Level::MVar(n) => Ok(mix(5, n.hash_u64())),
            Level::Succ(a) => {
                let a = share(a);
                let f = move |g2: RecGuard| -> (r: Result<u64, KernelError>)
                        ensures
                            r matches Ok(h) ==> h == mix(1, level_hash(a@)),
                            r matches Err(e) ==> e is DeepRecursion,
                            level_fits(g2, a@) ==> r is Ok,
                        {
                            let mut g3 = g2;
                            match Level::hash_val(&a, &mut g3) {
                                Err(e) => Err(e),
                                Ok(h) => Ok(mix(1, h)),
                            }
                        };
                g.enter(f)
            },
            Level::Max(a, b) => {
                let (a, b) = (share(a), share(b));
                let f = move |g2: RecGuard| -> (r: Result<u64, KernelError>)
                        ensures
                            r matches Ok(h) ==> h == mix(mix(2, level_hash(a@)), level_hash(b@)),
                            r matches Err(e) ==> e is DeepRecursion,
                            level_fits(g2, a@) && level_fits(g2, b@) ==> r is Ok,
                        {
                            let mut g3 = g2;
                            let ha = match Level::hash_val(&a, &mut g3) {
                                Err(e) => {
                                    return Err(e);
                                },
                                Ok(h) => h,
                            };
                            match Level::hash_val(&b, &mut g3) {
                                Err(e) => Err(e),
                                Ok(hb) => Ok(mix(mix(2, ha), hb)),
                            }
                        };
                g.enter(f)
            },
            Level::IMax(a, b) => {
                let (a, b) = (share(a), share(b));
                let f = move |g2: RecGuard| -> (r: Result<u64, KernelError>)
                        ensures
                            r matches Ok(h) ==> h == mix(mix(3, level_hash(a@)), level_hash(b@)),
                            r matches Err(e) ==> e is DeepRecursion,
                            level_fits(g2, a@) && level_fits(g2, b@) ==> r is Ok,
                        {
                            let mut g3 = g2;
                            let ha = match Level::hash_val(&a, &mut g3) {
                                Err(e) => {
                                    return Err(e);
                                },
                                Ok(h) => h,
                            };
                            match Level::hash_val(&b, &mut g3) {
                                Err(e) => Err(e),
                                Ok(hb) => Ok(mix(mix(3, ha), hb)),
                            }
                        };
                g.enter(f)
            },
        }
    }

    /// Whether a metavariable occurs in `l`.
    pub fn has_mvar(l: &Arc<Level>, g: &mut RecGuard) -> (r: Result<bool, KernelError>)
        ensures
            *final(g) == *old(g),
            r matches Ok(x) ==> x == spec_has_mvar(l@),
            r matches Err(e) ==> e is DeepRecursion,
            old(g).depth() + level_height(l@) <= MAX_REC_DEPTH ==> r is Ok,
        decreases l,
    {
        match &**l {
            Level::Zero | Level::Param(_) => Ok(false),
            Level::MVar(_) => Ok(true),
            Level::Succ(a) => {
                let a = share(a);
                let f = move |g2: RecGuard| -> (r: Result<bool, KernelError>)
                        ensures
                            r matches Ok(x) ==> x == spec_has_mvar(a@),
                            r matches Err(e) ==> e is DeepRecursion,
                            level_fits(g2, a@) ==> r is Ok,
                        {
                            let mut g3 = g2;
                            Level::has_mvar(&a, &mut g3)
                        };
                g.enter(f)
            },
            Level::Max(a, b) | Level::IMax(a, b) => {
                let (a, b) = (share(a), share(b));
                let f = move |g2: RecGuard| -> (r: Result<bool, KernelError>)
                        ensures
                            r matches Ok(x) ==> x == (spec_has_mvar(a@) || spec_has_mvar(b@)),
                            r matches Err(e) ==> e is DeepRecursion,
                            level_fits(g2, a@) && level_fits(g2, b@) ==> r is Ok,
                        {
                            let mut g3 = g2;
                            match Level::has_mvar(&a, &mut g3) {
                                Err(e) => Err(e),
                                Ok(true) => Ok(true),
                                Ok(false) => Level::has_mvar(&b, &mut g3),
                            }
                        };
                g.enter(f)
            },
        }
    }

    /// Whether a parameter occurs in `l`.
    pub fn has_param(l: &Arc<Level>, g: &mut RecGuard) -> (r: Result<bool, KernelError>)
        ensures
            *final(g) == *old(g),
            r matches Ok(x) ==> x == spec_has_param(l@),
            r matches Err(e) ==> e is DeepRecursion,
            old(g).depth() + level_height(l@) <= MAX_REC_DEPTH ==> r is Ok,
        decreases l,
    {
        match &**l {
            Level::Zero | Level::MVar(_) => Ok(false),
            Level::Param(_) => Ok(true),
            Level::Succ(a) => {
                let a = share(a);
                let f = move |g2: RecGuard| -> (r: Result<bool, KernelError>)
                        ensures
                            r matches Ok(x) ==> x == spec_has_param(a@),
                            r matches Err(e) ==> e is DeepRecursion,
                            level_fits(g2, a@) ==> r is Ok,
                        {
                            let mut g3 = g2;
                            Level::has_param(&a, &mut g3)
                        };
                g.enter(f)
            },
            Level::Max(a, b) | Level::IMax(a, b) => {
                let (a, b) = (share(a), share(b));
                let f = move |g2: RecGuard| -> (r: Result<bool, KernelError>)
                        ensures
                            r matches Ok(x) ==> x == (spec_has_param(a@) || spec_has_param(b@)),
                            r matches Err(e) ==> e is DeepRecursion,
                            level_fits(g2, a@) && level_fits(g2, b@) ==> r is Ok,
                        {
                            let mut g3 = g2;
                            match Level::has_param(&a, &mut g3) {
                                Err(e) => Err(e),
                                Ok(true) => Ok(true),
                                Ok(false) => Level::has_param(&b, &mut g3),
                            }
                        };
                g.enter(f)
            },
        }
    }

    /// The normalizing binary `max` (`spec_mk_max`).
    pub fn mk_max_pair(l1: Arc<Level>, l2: Arc<Level>, g: &mut RecGuard) -> (r: Result<
        Arc<Level>,
        KernelError,
    >)
        ensures
            *final(g) == *old(g),
            r matches Ok(x) ==> x@ == spec_mk_max(l1@, l2@),
            r matches Err(e) ==> e is DeepRecursion,
            level_fits(*old(g), l1@) && level_fits(*old(g), l2@) ==> r is Ok,
    {
        if is_explicit_level(&l1) && is_explicit_level(&l2) {
            let k1 = Level::to_offset(&l1).1;
            let k2 = Level::to_offset(&l2).1;
            return Ok(
                if k1 >= k2 {
                    l1
                } else {
                    l2
                },
            );
        }
        if Level::structural_eq(&l1, &l2, g)? {
            return Ok(l1);
        }
        if l1.is_zero() {
            return Ok(l2);
        }
        if l2.is_zero() {
            return Ok(l1);
        }
        if let Level::Max(a, b) = &*l2 {
            if Level::structural_eq(a, &l1, g)? {
                return Ok(share(&l2));
            }
            if Level::structural_eq(b, &l1, g)? {
                return Ok(share(&l2));
            }
        }
        if let Level::Max(a, b) = &*l1 {
            if Level::structural_eq(a, &l2, g)? {
                return Ok(share(&l1));
            }
            if Level::structural_eq(b, &l2, g)? {
                return Ok(share(&l1));
            }
        }
        let same_base = {
            let (b1, _) = Level::to_offset(&l1);
            let (b2, _) = Level::to_offset(&l2);
            proof {
                lemma_offset_base_height(l1@);
            }
            Level::structural_eq(b1, b2, g)?
        };
        if same_base {
            let k1 = Level::to_offset(&l1).1;
            let k2 = Level::to_offset(&l2).1;
            return Ok(
                if k1 > k2 {
                    l1
                } else {
                    l2
                },
            );
        }
        Ok(Arc::new(Level::Max(l1, l2)))
    }

    /// The normalizing binary `imax` (`spec_mk_imax`).
    pub fn mk_imax_pair(l1: Arc<Level>, l2: Arc<Level>, g: &mut RecGuard) -> (r: Result<
        Arc<Level>,
        KernelError,
    >)
        ensures
            *final(g) == *old(g),
            r matches Ok(x) ==> x@ == spec_mk_imax(l1@, l2@),
            r matches Err(e) ==> e is DeepRecursion,
            level_fits(*old(g), l1@) && level_fits(*old(g), l2@) ==> r is Ok,
    {
        if Level::is_never_zero(&l2, g)? {
            return Level::mk_max_pair(l1, l2, g);
        }
        if l2.is_zero() {
            return Ok(l2);
        }
        if l1.is_zero() || is_one_level(&l1) {
            return Ok(l2);
        }
        if Level::structural_eq(&l1, &l2, g)? {
            return Ok(l1);
        }
        Ok(Arc::new(Level::IMax(l1, l2)))
    }
}

/// Whether `l` is a numeral `succ^k(zero)`.
fn is_explicit_level(l: &Arc<Level>) -> (r: bool)
    ensures
        r == is_explicit(l@),
{
    Level::to_offset(l).0.is_zero()
}

/// Whether `l` is the numeral `1`.
fn is_one_level(l: &Arc<Level>) -> (r: bool)
    ensures
        r == is_one(l@),
{
    let (base, k) = Level::to_offset(l);
    k == 1 && base.is_zero()
}

/// The kind rank (`kind_rank`).
fn level_kind_rank(l: &Level) -> (r: u8)
    ensures
        r == kind_rank(l@),
{
    match l {
        Level::Zero => 0,
        Level::Succ(_) => 1,
        Level::Max(..) => 2,
        Level::IMax(..) => 3,
        Level::Param(_) => 4,
        Level::MVar(_) => 5,
    }
}

pub proof fn lemma_sizes_elem(s: Seq<SLevel>, i: int)
    requires
        0 <= i < s.len(),
    ensures
        level_size(s[i]) <= sizes(s),
    decreases s.len(),
{
    if i == s.len() - 1 {
    } else {
        lemma_sizes_elem(s.drop_last(), i);
    }
}

pub proof fn lemma_max_args_nonempty(l: SLevel)
    ensures
        spec_max_args(l).len() >= 1,
    decreases l,
{
    if let SLevel::Max(a, b) = l {
        lemma_max_args_nonempty(*a);
    }
}

pub proof fn lemma_normalize_args_nonempty(s: Seq<SLevel>)
    requires
        s.len() >= 1,
    ensures
        spec_normalize_args(s).len() >= 1,
{
    lemma_max_args_nonempty(spec_normalize(s.last()));
}

proof fn lemma_sort_len(s: Seq<SLevel>)
    ensures
        spec_sort(s).len() == s.len(),
    decreases s.len(),
{
    if s.len() > 0 {
        lemma_sort_len(s.drop_last());
        lemma_ins_pos_bound(spec_sort(s.drop_last()), s.last());
    }
}

proof fn lemma_ins_pos_bound(s: Seq<SLevel>, x: SLevel)
    ensures
        ins_pos(s, x) <= s.len(),
    decreases s.len(),
{
    if s.len() > 0 {
        lemma_ins_pos_bound(s.drop_last(), x);
    }
}

pub proof fn lemma_base_not_succ(l: SLevel)
    ensures
        !(offset_base(l) is Succ),
    decreases l,
{
    if let SLevel::Succ(a) = l {
        lemma_base_not_succ(*a);
    }
}

/// Strict order used to sort `max` arguments (`spec_norm_lt`).
fn is_norm_lt(a: &Arc<Level>, b: &Arc<Level>, g: &mut RecGuard) -> (r: Result<bool, KernelError>)
    ensures
        *final(g) == *old(g),
        r matches Ok(x) ==> x == spec_norm_lt(a@, b@),
        r matches Err(e) ==> e is DeepRecursion,
        level_fits(*old(g), a@) ==> r is Ok,
    decreases level_size(a@),
{
    if same_node(a, b) {
        return Ok(false);
    }
    let (l1, k1) = Level::to_offset(a);
    let (l2, k2) = Level::to_offset(b);
    proof {
        lemma_offset_base_height(a@);
    }
    if Level::structural_eq(l1, l2, g)? {
        return Ok(k1 < k2);
    }
    let r1 = level_kind_rank(l1);
    let r2 = level_kind_rank(l2);
    if r1 != r2 {
        return Ok(r1 < r2);
    }
    proof {
        lemma_offset_base_size(a@);
    }
    match (&**l1, &**l2) {
        (Level::Param(na), Level::Param(nb)) => Ok(na.less(nb)),
        (Level::MVar(na), Level::MVar(nb)) => Ok(na.less(nb)),
        (Level::Max(la, ra), Level::Max(lb, rb)) => {
            let (la, ra, lb, rb) = (share(la), share(ra), share(lb), share(rb));
            let f = move |g2: RecGuard| -> (r: Result<bool, KernelError>)
                ensures
                    r matches Ok(x) ==> x == (if la@ != lb@ {
                        spec_norm_lt(la@, lb@)
                    } else {
                        spec_norm_lt(ra@, rb@)
                    }),
                    r matches Err(e) ==> e is DeepRecursion,
                    level_fits(g2, la@) && level_fits(g2, ra@) ==> r is Ok,
                {
                    let mut g3 = g2;
                    match Level::structural_eq(&la, &lb, &mut g3) {
                        Err(e) => Err(e),
                        Ok(false) => is_norm_lt(&la, &lb, &mut g3),
                        Ok(true) => is_norm_lt(&ra, &rb, &mut g3),
                    }
                };
            g.enter(f)
        },
        (Level::IMax(la, ra), Level::IMax(lb, rb)) => {
            let (la, ra, lb, rb) = (share(la), share(ra), share(lb), share(rb));
            let f = move |g2: RecGuard| -> (r: Result<bool, KernelError>)
                ensures
                    r matches Ok(x) ==> x == (if la@ != lb@ {
                        spec_norm_lt(la@, lb@)
                    } else {
                        spec_norm_lt(ra@, rb@)
                    }),
                    r matches Err(e) ==> e is DeepRecursion,
                    level_fits(g2, la@) && level_fits(g2, ra@) ==> r is Ok,
                {
                    let mut g3 = g2;
                    match Level::structural_eq(&la, &lb, &mut g3) {
                        Err(e) => Err(e),
                        Ok(false) => is_norm_lt(&la, &lb, &mut g3),
                        Ok(true) => is_norm_lt(&ra, &rb, &mut g3),
                    }
                };
            g.enter(f)
        },
        _ => Ok(false),
    }
}

/// Nested `Max` nodes flattened into their argument list.
fn push_max_args(l: &Arc<Level>, g: &mut RecGuard) -> (r: Result<Vec<Arc<Level>>, KernelError>)
    ensures
        *final(g) == *old(g),
        r matches Ok(v) ==> levels_view(v@) == spec_max_args(l@),
        r matches Err(e) ==> e is DeepRecursion,
        level_fits(*old(g), l@) ==> r is Ok,
    decreases l,
{
    match &**l {
        Level::Max(a, b) => {
            let (a, b) = (share(a), share(b));
            let f = move |g2: RecGuard| -> (r: Result<Vec<Arc<Level>>, KernelError>)
                ensures
                    r matches Ok(v) ==> levels_view(v@) == spec_max_args(a@) + spec_max_args(b@),
                    r matches Err(e) ==> e is DeepRecursion,
                    level_fits(g2, a@) && level_fits(g2, b@) ==> r is Ok,
                {
                    let mut g3 = g2;
                    let mut left = match push_max_args(&a, &mut g3) {
                        Err(e) => {
                            return Err(e);
                        },
                        Ok(v) => v,
                    };
                    let mut right = match push_max_args(&b, &mut g3) {
                        Err(e) => {
                            return Err(e);
                        },
                        Ok(v) => v,
                    };
                    let ghost lv = left@;
                    let ghost rv = right@;
                    left.append(&mut right);
                    proof {
                        assert(levels_view(left@) =~= levels_view(lv) + levels_view(rv));
                    }
                    Ok(left)
                };
            g.enter(f)
        },
        _ => {
            let v = vec![share(l)];
            proof {
                assert(levels_view(v@) =~= seq![l@]);
            }
            Ok(v)
        },
    }
}

/// `k` successors over `l` (a loop over `k`).
fn mk_succ_n(l: Arc<Level>, k: u64) -> (r: Arc<Level>)
    ensures
        r@ == succ_n(l@, k as nat),
{
    let mut r = l;
    let mut i: u64 = 0;
    while i < k
        invariant
            i <= k,
            r@ == succ_n(l@, i as nat),
        decreases k - i,
    {
        r = Level::mk_succ(r);
        i = i + 1;
    }
    r
}

/// Right-associates a flat argument list into a `max` tree through the
/// normalizing constructor (`spec_max_list`).
fn mk_max_list(args: Vec<Arc<Level>>, g: &mut RecGuard) -> (r: Result<Arc<Level>, KernelError>)
    ensures
        *final(g) == *old(g),
        r matches Ok(x) ==> x@ == spec_max_list(levels_view(args@)),
        r matches Err(e) ==> e is DeepRecursion,
        (forall|i: int| 0 <= i < args@.len() ==> !(#[trigger] args@[i]@ is Max)) && old(g).depth()
            + args@.len() + crate::expr::levels_height(levels_view(args@)) <= MAX_REC_DEPTH ==> r is Ok,
{
    let ghost s = levels_view(args@);
    let ghost lh = crate::expr::levels_height(s);
    let ghost fits = (forall|i: int| 0 <= i < args@.len() ==> !(#[trigger] args@[i]@ is Max)) && old(
        g,
    ).depth() + args@.len() + lh <= MAX_REC_DEPTH;
    proof {
        if fits {
            assert forall|i: int| 0 <= i < s.len() implies !(#[trigger] s[i] is Max) && level_height(s[i])
                <= lh by {
                assert(s[i] == args@[i]@);
                crate::expr::lemma_levels_height(s, i);
            }
            assert(crate::level_bounds::flat_below(s, lh));
        }
    }
    let n = args.len();
    if n == 0 {
        return Ok(Arc::new(Level::Zero));
    }
    if n == 1 {
        return Ok(share(&args[0]));
    }
    proof {
        assert(s[n - 1] == args@[n - 1]@);
        assert(s[n - 2] == args@[n - 2]@);
        if fits {
            crate::expr::lemma_levels_height(s, n - 1);
            crate::expr::lemma_levels_height(s, n - 2);
        }
    }
    let mut r = Level::mk_max_pair(share(&args[n - 2]), share(&args[n - 1]), g)?;
    let mut i = n - 2;
    proof {
        assert(spec_max_list_from(s, (n - 1) as nat) == s[n - 1]);
    }
    while i > 0
        invariant
            *g == *old(g),
            n == args@.len(),
            s == levels_view(args@),
            0 <= i <= n - 2,
            r@ == spec_max_list_from(s, i as nat),
            fits ==> crate::level_bounds::flat_below(s, lh) && old(g).depth() + n + lh <= MAX_REC_DEPTH,
            lh == crate::expr::levels_height(s),
            fits == ((forall|j: int| 0 <= j < args@.len() ==> !(#[trigger] args@[j]@ is Max)) && old(
                g,
            ).depth() + args@.len() + lh <= MAX_REC_DEPTH),
        decreases i,
    {
        i = i - 1;
        proof {
            assert(s[i as int] == args@[i as int]@);
            if fits {
                crate::level_bounds::lemma_max_list_from_bounds(s, (i + 1) as nat, lh);
            }
        }
        r = Level::mk_max_pair(share(&args[i]), r, g)?;
    }
    Ok(r)
}

/// Inserts `x` into the sorted list `v` after the last element it is not
/// below (`ins_pos`).
fn insert_sorted(v: &mut Vec<Arc<Level>>, x: Arc<Level>, g: &mut RecGuard) -> (r: Result<
    (),
    KernelError,
>)
    ensures
        *final(g) == *old(g),
        r is Ok ==> levels_view(final(v)@) == levels_view(old(v)@).insert(
            ins_pos(levels_view(old(v)@), x@) as int,
            x@,
        ),
        r matches Err(e) ==> e is DeepRecursion,
        level_fits(*old(g), x@) ==> r is Ok,
{
    let ghost t = levels_view(v@);
    let mut j = v.len();
    let mut done = false;
    proof {
        assert(t.take(j as int) =~= t);
    }
    while !done && j > 0
        invariant
            *g == *old(g),
            *v == *old(v),
            t == levels_view(v@),
            j <= v@.len(),
            ins_pos(t, x@) == (if done {
                j as nat
            } else {
                ins_pos(t.take(j as int), x@)
            }),
        decreases j + (if done { 0int } else { 1int }),
    {
        proof {
            assert(t.take(j as int).drop_last() =~= t.take(j - 1));
            assert(t.take(j as int).last() == t[j - 1]);
        }
        if is_norm_lt(&x, &v[j - 1], g)? {
            j = j - 1;
        } else {
            done = true;
        }
    }
    proof {
        assert(t.take(0) =~= Seq::<SLevel>::empty());
    }
    v.insert(j, x);
    proof {
        assert(levels_view(v@) =~= t.insert(j as int, x@));
    }
    Ok(())
}

/// Stable insertion sort by `is_norm_lt` (`spec_sort`).
fn sort_levels(args: Vec<Arc<Level>>, g: &mut RecGuard) -> (r: Result<Vec<Arc<Level>>, KernelError>)
    ensures
        *final(g) == *old(g),
        r matches Ok(v) ==> levels_view(v@) == spec_sort(levels_view(args@)),
        r matches Err(e) ==> e is DeepRecursion,
        (forall|i: int| 0 <= i < args@.len() ==> level_fits(*old(g), #[trigger] args@[i]@)) ==> r is Ok,
{
    let ghost s = levels_view(args@);
    let mut sorted: Vec<Arc<Level>> = Vec::new();
    let mut i: usize = 0;
    proof {
        assert(s.take(0) =~= Seq::<SLevel>::empty());
        assert(levels_view(sorted@) =~= Seq::<SLevel>::empty());
    }
    while i < args.len()
        invariant
            *g == *old(g),
            s == levels_view(args@),
            i <= args@.len(),
            levels_view(sorted@) == spec_sort(s.take(i as int)),
            forall|j: int| 0 <= j < args@.len() ==> #[trigger] args@[j]@ == s[j],
        decreases args@.len() - i,
    {
        proof {
            assert(s.take(i + 1).drop_last() =~= s.take(i as int));
            assert(s.take(i + 1).last() == s[i as int]);
        }
        insert_sorted(&mut sorted, share(&args[i]), g)?;
        i = i + 1;
    }
    proof {
        assert(s.take(i as int) =~= s);
    }
    Ok(sorted)
}

/// Normal form of `succ^k(base)` for a `max` node `base`
/// (`spec_normalize_max`): flatten, normalize each argument, sort, keep
/// of each base only its largest offset, drop a numeral that another
/// argument dominates, then rebuild.
fn normalize_max(base: &Arc<Level>, k: u64, g: &mut RecGuard) -> (r: Result<
    Arc<Level>,
    KernelError,
>)
    requires
        base@ is Max,
    ensures
        *final(g) == *old(g),
        r matches Ok(x) ==> x@ == spec_normalize_max(base@, k as nat),
        r matches Err(e) ==> e is DeepRecursion,
        old(g).depth() + (level_size(base@) + k) * (level_size(base@) + k) <= MAX_REC_DEPTH ==> r is Ok,
    decreases level_size(base@), 1nat,
{
    let ghost sb = level_size(base@);
    let ghost fits = old(g).depth() + (sb + k) * (sb + k) <= MAX_REC_DEPTH;
    proof {
        lemma_max_args_sizes(base@);
        crate::level_bounds::lemma_height_below_size(base@);
        assert(sb <= (sb + k) * (sb + k)) by (nonlinear_arith)
            requires
                sb >= 1,
        ;
    }
    let args_left = push_max_args(base, g)?;
    let ghost tv = levels_view(args_left@);
    let ghost sa = sizes(tv);
    proof {
        lemma_max_args_sizes(base@);
        lemma_max_args_nonempty(base@);
        assert(sa * sa + sa + k <= (sb + k) * (sb + k)) by (nonlinear_arith)
            requires
                sa + 1 <= sb,
        ;
    }
    let mut args: Vec<Arc<Level>> = Vec::new();
    let mut i: usize = 0;
    proof {
        assert(tv.take(0) =~= Seq::<SLevel>::empty());
        assert(levels_view(args@) =~= Seq::<SLevel>::empty());
    }
    while i < args_left.len()
        invariant
            *g == *old(g),
            tv == levels_view(args_left@),
            tv == spec_max_args(base@),
            sizes(tv) < level_size(base@),
            i <= args_left@.len(),
            levels_view(args@) == spec_normalize_args(tv.take(i as int)),
            sa == sizes(tv),
            fits ==> old(g).depth() + sa * sa + sa + k <= MAX_REC_DEPTH,
            fits == (old(g).depth() + (sb + k) * (sb + k) <= MAX_REC_DEPTH),
            sb == level_size(base@),
        decreases args_left@.len() - i,
    {
        proof {
            lemma_sizes_elem(tv, i as int);
            assert(tv.take(i + 1).drop_last() =~= tv.take(i as int));
            assert(tv.take(i + 1).last() == tv[i as int]);
            let si = level_size(tv[i as int]);
            assert(si * si <= sa * sa) by (nonlinear_arith)
                requires
                    si <= sa,
            ;
            crate::level_bounds::lemma_normalize_bounds(tv[i as int]);
            assert(tv[i as int] == args_left@[i as int]@);
        }
        let na = Level::normalize(&args_left[i], g)?;
        let mut flat = push_max_args(&na, g)?;
        let ghost av = args@;
        let ghost fv = flat@;
        args.append(&mut flat);
        proof {
            assert(levels_view(args@) =~= levels_view(av) + levels_view(fv));
        }
        i = i + 1;
    }
    proof {
        assert(tv.take(i as int) =~= tv);
        lemma_normalize_args_nonempty(tv);
        crate::level_bounds::lemma_normalize_args_bounds(tv);
        if fits {
            assert forall|j: int| 0 <= j < args@.len() implies level_fits(*old(g), #[trigger] args@[j]@)
                by {
                assert(args@[j]@ == levels_view(args@)[j]);
            }
        }
    }
    let ghost unsorted = levels_view(args@);
    let args = sort_levels(args, g)?;
    let ghost sv = levels_view(args@);
    proof {
        lemma_sort_len(unsorted);
        crate::level_bounds::lemma_sort_flat(unsorted, sa * sa);
    }
    let n = args.len();
    let mut i: usize = 0;
    if is_explicit_level(&args[0]) {
        while i + 1 < n && is_explicit_level(&args[i + 1])
            invariant
                n == args@.len(),
                sv == levels_view(args@),
                i < n,
                explicit_run_end(sv, 0) == explicit_run_end(sv, i as nat),
            decreases n - i,
        {
            i = i + 1;
        }
        let k_max = Level::to_offset(&args[i]).1;
        let mut j = i + 1;
        let mut found = false;
        while j < n && !found
            invariant
                n == args@.len(),
                sv == levels_view(args@),
                i < j <= n,
                offset_reaches(sv, (i + 1) as nat, k_max as nat) == (if found {
                    true
                } else {
                    offset_reaches(sv, j as nat, k_max as nat)
                }),
            decreases n - j + (if found { 0int } else { 1int }),
        {
            if Level::to_offset(&args[j]).1 >= k_max {
                found = true;
            } else {
                j = j + 1;
            }
        }
        if found {
            i = i + 1;
        }
    }
    let ghost start = i as nat;
    let mut rargs: Vec<Arc<Level>> = Vec::new();
    rargs.push(share(&args[i]));
    let (pb, pk) = Level::to_offset(&args[i]);
    let mut prev_base = share(pb);
    let mut prev_k = pk;
    i = i + 1;
    proof {
        assert(levels_view(rargs@) =~= seq![sv[start as int]]);
        assert(levels_view(rargs@)[0] == sv[start as int]);
    }
    while i < n
        invariant
            *g == *old(g),
            n == args@.len(),
            sv == levels_view(args@),
            start < i <= n,
            rargs@.len() >= 1,
            dedup_from(sv, start + 1, seq![sv[start as int]]) == dedup_from(
                sv,
                i as nat,
                levels_view(rargs@),
            ),
            prev_base@ == offset_base(levels_view(rargs@).last()),
            prev_k == offset_k(levels_view(rargs@).last()),
            crate::level_bounds::flat_below(sv, sa * sa),
            fits ==> old(g).depth() + sa * sa + sa + k <= MAX_REC_DEPTH,
            fits == (old(g).depth() + (sb + k) * (sb + k) <= MAX_REC_DEPTH),
            sb == level_size(base@),
            crate::level_bounds::flat_below(levels_view(rargs@), sa * sa),
            rargs@.len() <= i,
        decreases n - i,
    {
        proof {
            lemma_offset_base_height(levels_view(rargs@).last());
        }
        let (cb, ck) = Level::to_offset(&args[i]);
        let curr_base = share(cb);
        let curr_k = ck;
        let ghost rv = levels_view(rargs@);
        if Level::structural_eq(&prev_base, &curr_base, g)? {
            if prev_k < curr_k {
                prev_k = curr_k;
                prev_base = curr_base;
                rargs.pop();
                rargs.push(share(&args[i]));
                proof {
                    assert(levels_view(rargs@) =~= rv.drop_last().push(sv[i as int]));
                    let nv = levels_view(rargs@);
                    assert forall|j: int| 0 <= j < nv.len() implies !(#[trigger] nv[j] is Max)
                        && level_height(nv[j]) <= sa * sa by {
                        if j < nv.len() - 1 {
                            assert(nv[j] == rv[j]);
                        }
                    }
                }
            }
        } else {
            prev_base = curr_base;
            prev_k = curr_k;
            rargs.push(share(&args[i]));
            proof {
                assert(levels_view(rargs@) =~= rv.push(sv[i as int]));
                let nv = levels_view(rargs@);
                assert forall|j: int| 0 <= j < nv.len() implies !(#[trigger] nv[j] is Max)
                    && level_height(nv[j]) <= sa * sa by {
                    if j < nv.len() - 1 {
                        assert(nv[j] == rv[j]);
                    }
                }
            }
        }
        i = i + 1;
    }
    let ghost kept = levels_view(rargs@);
    let mut out: Vec<Arc<Level>> = Vec::new();
    let mut t: usize = 0;
    while t < rargs.len()
        invariant
            kept == levels_view(rargs@),
            t <= rargs@.len(),
            levels_view(out@) == succ_each(kept, k as nat).take(t as int),
        decreases rargs@.len() - t,
    {
        let ghost ov = levels_view(out@);
        let sx = mk_succ_n(share(&rargs[t]), k);
        proof {
            assert(kept[t as int] == rargs@[t as int]@);
            assert(sx@ == succ_each(kept, k as nat)[t as int]);
        }
        out.push(sx);
        proof {
            assert(levels_view(out@) =~= ov.push(sx@));
            assert(succ_each(kept, k as nat).take(t + 1) =~= succ_each(kept, k as nat).take(
                t as int,
            ).push(succ_each(kept, k as nat)[t as int]));
            assert(levels_view(out@) =~= succ_each(kept, k as nat).take(t + 1));
        }
        t = t + 1;
    }
    proof {
        assert(succ_each(kept, k as nat).take(t as int) =~= succ_each(kept, k as nat));
        let xs = succ_each(kept, k as nat);
        assert forall|j: int| 0 <= j < xs.len() implies !(#[trigger] xs[j] is Max) && level_height(xs[j])
            <= sa * sa + k by {
            crate::level_bounds::lemma_succ_n_shape(kept[j], k as nat);
        }
        crate::level_bounds::lemma_levels_height_le(xs, (sa * sa + k) as nat);
        assert forall|j: int| 0 <= j < out@.len() implies !(#[trigger] out@[j]@ is Max) by {
            assert(out@[j]@ == xs[j]);
        }
        assert(out@.len() <= sa);
    }
    mk_max_list(out, g)
}

impl Level {
    /// Normal form of a level (`spec_normalize`).
    pub fn normalize(l: &Arc<Level>, g: &mut RecGuard) -> (r: Result<Arc<Level>, KernelError>)
        ensures
            *final(g) == *old(g),
            r matches Ok(x) ==> x@ == spec_normalize(l@),
            r matches Err(e) ==> e is DeepRecursion,
            !(offset_base(l@) is Max || offset_base(l@) is IMax) ==> (r matches Ok(x) && x@ == l@),
            old(g).depth() + level_size(l@) * level_size(l@) < MAX_REC_DEPTH ==> r is Ok,
        decreases level_size(l@), 2nat,
    {
        let (base, k) = Level::to_offset(l);
        let ghost n = level_size(l@);
        proof {
            lemma_offset_base_size(l@);
            lemma_base_not_succ(l@);
            crate::level_bounds::lemma_offset_size(l@);
            assert(1 <= n * n) by (nonlinear_arith)
                requires
                    n >= 1,
            ;
        }
        match &**base {
            Level::Zero | Level::Param(_) | Level::MVar(_) => Ok(share(l)),
            Level::IMax(lhs, rhs) => {
                let (lhs, rhs) = (share(lhs), share(rhs));
                let f = move |g2: RecGuard| -> (r: Result<Arc<Level>, KernelError>)
                    ensures
                        r matches Ok(x) ==> x@ == succ_n(
                            spec_mk_imax(spec_normalize(lhs@), spec_normalize(rhs@)),
                            k as nat,
                        ),
                        r matches Err(e) ==> e is DeepRecursion,
                        g2.depth() + level_size(lhs@) * level_size(lhs@) < MAX_REC_DEPTH && g2.depth()
                            + level_size(rhs@) * level_size(rhs@) < MAX_REC_DEPTH ==> r is Ok,
                    {
                        proof {
                            crate::level_bounds::lemma_normalize_bounds(lhs@);
                            crate::level_bounds::lemma_normalize_bounds(rhs@);
                        }
                        let mut g3 = g2;
                        let l1 = match Level::normalize(&lhs, &mut g3) {
                            Err(e) => {
                                return Err(e);
                            },
                            Ok(x) => x,
                        };
                        let l2 = match Level::normalize(&rhs, &mut g3) {
                            Err(e) => {
                                return Err(e);
                            },
                            Ok(x) => x,
                        };
                        match Level::mk_imax_pair(l1, l2, &mut g3) {
                            Err(e) => Err(e),
                            Ok(im) => Ok(mk_succ_n(im, k)),
                        }
                    };
                proof {
                    let sl = level_size(lhs@);
                    let sr = level_size(rhs@);
                    assert(sl * sl + 1 <= n * n && sr * sr + 1 <= n * n) by (nonlinear_arith)
                        requires
                            1 + sl + sr <= n,
                            sl >= 1,
                            sr >= 1,
                    ;
                }
                g.enter(f)
            },
            Level::Max(_, _) => {
                let b = share(base);
                let f = move |g2: RecGuard| -> (r: Result<Arc<Level>, KernelError>)
                    ensures
                        r matches Ok(x) ==> x@ == spec_normalize_max(b@, k as nat),
                        r matches Err(e) ==> e is DeepRecursion,
                        g2.depth() + (level_size(b@) + k) * (level_size(b@) + k) <= MAX_REC_DEPTH
                            ==> r is Ok,
                    {
                        let mut g3 = g2;
                        normalize_max(&b, k, &mut g3)
                    };
                proof {
                    let sb = level_size(b@);
                    assert((sb + k) * (sb + k) <= n * n) by (nonlinear_arith)
                        requires
                            sb + k <= n,
                    ;
                }
                g.enter(f)
            },
            Level::Succ(_) => {
                proof {
                    assert(false);
                }
                Ok(share(l))
            },
        }
    }

    /// Equivalence as the checker decides it: structurally equal, or equal
    /// normal forms (`spec_is_equivalent`).
    pub fn is_equivalent(a: &Arc<Level>, b: &Arc<Level>, g: &mut RecGuard) -> (r: Result<
        bool,
        KernelError,
    >)
        ensures
            *final(g) == *old(g),
            r matches Ok(x) ==> x == spec_is_equivalent(a@, b@),
            r matches Err(e) ==> e is DeepRecursion,
            a@ == b@ && level_fits(*old(g), a@) ==> r == Ok::<bool, KernelError>(true),
            level_fits(*old(g), a@) && level_fits(*old(g), b@) && !(offset_base(a@) is Max
                || offset_base(a@) is IMax) && !(offset_base(b@) is Max || offset_base(b@) is IMax)
                ==> r is Ok,
            old(g).depth() + level_size(a@) * level_size(a@) < MAX_REC_DEPTH && old(g).depth()
                + level_size(b@) * level_size(b@) < MAX_REC_DEPTH ==> r is Ok,
    {
        proof {
            crate::level_bounds::lemma_height_below_size(a@);
            crate::level_bounds::lemma_normalize_bounds(a@);
            let sa = level_size(a@);
            assert(sa <= sa * sa) by (nonlinear_arith)
                requires
                    sa >= 1,
            ;
        }
        if Level::structural_eq(a, b, g)? {
            return Ok(true);
        }
        let na = Level::normalize(a, g)?;
        let nb = Level::normalize(b, g)?;
        Level::structural_eq(&na, &nb, g)
    }

    /// Substitutes `args[i]` for parameter `params[i]` (the first match,
    /// among the first `min(len)` pairs), rebuilding changed nodes through
    /// the normalizing constructors (`spec_inst`). A level with nothing to
    /// substitute comes back as the same `Arc`.
    pub fn instantiate_params(
        l: &Arc<Level>,
        params: &[Arc<Name>],
        args: &[Arc<Level>],
        g: &mut RecGuard,
    ) -> (r: Result<Arc<Level>, KernelError>)
        ensures
            *final(g) == *old(g),
            r matches Ok(x) ==> x@ == spec_inst(l@, names_view(params@), levels_view(args@)).0,
            r matches Err(e) ==> e is DeepRecursion,
            old(g).depth() + level_height(l@) + crate::expr::levels_height(levels_view(args@))
                <= MAX_REC_DEPTH ==> r is Ok,
    {
        let (x, _) = instantiate_params_go(l, params, args, g)?;
        Ok(x)
    }
}

/// `instantiate_params` with its change flag (`spec_inst`).
fn instantiate_params_go(l: &Arc<Level>, params: &[Arc<Name>], args: &[Arc<Level>], g: &mut RecGuard) -> (r:
    Result<(Arc<Level>, bool), KernelError>)
    ensures
        *final(g) == *old(g),
        r matches Ok(p) ==> (p.0@, p.1) == spec_inst(l@, names_view(params@), levels_view(args@)),
        r matches Err(e) ==> e is DeepRecursion,
        old(g).depth() + level_height(l@) + crate::expr::levels_height(levels_view(args@))
            <= MAX_REC_DEPTH ==> r is Ok,
    decreases l,
{
    let ghost ps = names_view(params@);
    let ghost av = levels_view(args@);
    let ghost ah = crate::expr::levels_height(av);
    if !Level::has_param(l, g)? {
        return Ok((share(l), false));
    }
    match &**l {
        Level::Zero | Level::MVar(_) => Ok((share(l), false)),
        Level::Param(n) => {
            let m = if params.len() < args.len() {
                params.len()
            } else {
                args.len()
            };
            let mut i: usize = 0;
            while i < m
                invariant
                    m <= params@.len(),
                    m <= args@.len(),
                    m == params@.len() || m == args@.len(),
                    ps == names_view(params@),
                    av == levels_view(args@),
                    *g == *old(g),
                    l@ == SLevel::Param(n@),
                    spec_has_param(l@),
                    i <= m,
                    forall|j: int| 0 <= j < i ==> ps[j] != n@,
                decreases m - i,
            {
                let hit = params[i].equal(n);
                proof {
                    assert(ps[i as int] == params@[i as int]@);
                }
                if hit {
                    proof {
                        let c = param_index(ps, av, n@);
                        assert(has_param_index(ps, av, n@));
                        assert(0 <= i < ps.len() && i < av.len() && ps[i as int] == n@ && forall|j: int|
                            0 <= j < i ==> ps[j] != n@);
                        if c < i {
                        } else if c > i {
                        }
                        assert(c == i);
                        assert(l@ == SLevel::Param(n@));
                        assert(av[i as int] == args@[i as int]@);
                    }
                    return Ok((share(&args[i]), true));
                }
                i = i + 1;
            }
            proof {
                if has_param_index(ps, av, n@) {
                    let w = choose|w: int| 0 <= w < ps.len() && w < av.len() && ps[w] == n@;
                    assert(ps[w] == n@);
                }
            }
            Ok((share(l), false))
        },
        Level::Succ(a) => {
            let a = share(a);
            let l2 = share(l);
            let f = move |g2: RecGuard| -> (r: Result<(Arc<Level>, bool), KernelError>)
                ensures
                    r matches Ok(p) ==> (p.0@, p.1) == (if spec_inst(a@, ps, av).1 {
                        (SLevel::Succ(Box::new(spec_inst(a@, ps, av).0)), true)
                    } else {
                        (l2@, false)
                    }),
                    r matches Err(e) ==> e is DeepRecursion,
                    g2.depth() + level_height(a@) + ah <= MAX_REC_DEPTH ==> r is Ok,
                {
                    let mut g3 = g2;
                    match instantiate_params_go(&a, params, args, &mut g3) {
                        Err(e) => Err(e),
                        Ok((a2, c)) => {
                            if c {
                                Ok((Level::mk_succ(a2), true))
                            } else {
                                Ok((l2, false))
                            }
                        },
                    }
                };
            g.enter(f)
        },
        Level::Max(a, b) => {
            let (a, b) = (share(a), share(b));
            let l2 = share(l);
            let f = move |g2: RecGuard| -> (r: Result<(Arc<Level>, bool), KernelError>)
                ensures
                    r matches Ok(p) ==> (p.0@, p.1) == (if spec_inst(a@, ps, av).1 || spec_inst(
                        b@,
                        ps,
                        av,
                    ).1 {
                        (spec_mk_max(spec_inst(a@, ps, av).0, spec_inst(b@, ps, av).0), true)
                    } else {
                        (l2@, false)
                    }),
                    r matches Err(e) ==> e is DeepRecursion,
                    g2.depth() + level_height(a@) + ah <= MAX_REC_DEPTH && g2.depth() + level_height(
                        b@,
                    ) + ah <= MAX_REC_DEPTH ==> r is Ok,
                {
                    let mut g3 = g2;
                    proof {
                        lemma_inst_height(a@, ps, av);
                        lemma_inst_height(b@, ps, av);
                    }
                    let (a2, ca) = match instantiate_params_go(&a, params, args, &mut g3) {
                        Err(e) => {
                            return Err(e);
                        },
                        Ok(p) => p,
                    };
                    let (b2, cb) = match instantiate_params_go(&b, params, args, &mut g3) {
                        Err(e) => {
                            return Err(e);
                        },
                        Ok(p) => p,
                    };
                    if ca || cb {
                        match Level::mk_max_pair(a2, b2, &mut g3) {
                            Err(e) => Err(e),
                            Ok(x) => Ok((x, true)),
                        }
                    } else {
                        Ok((l2, false))
                    }
                };
            g.enter(f)
        },
        Level::IMax(a, b) => {
            let (a, b) = (share(a), share(b));
            let l2 = share(l);
            let f = move |g2: RecGuard| -> (r: Result<(Arc<Level>, bool), KernelError>)
                ensures
                    r matches Ok(p) ==> (p.0@, p.1) == (if spec_inst(a@, ps, av).1 || spec_inst(
                        b@,
                        ps,
                        av,
                    ).1 {
                        (spec_mk_imax(spec_inst(a@, ps, av).0, spec_inst(b@, ps, av).0), true)
                    } else {
                        (l2@, false)
                    }),
                    r matches Err(e) ==> e is DeepRecursion,
                    g2.depth() + level_height(a@) + ah <= MAX_REC_DEPTH && g2.depth() + level_height(
                        b@,
                    ) + ah <= MAX_REC_DEPTH ==> r is Ok,
                {
                    let mut g3 = g2;
                    proof {
                        lemma_inst_height(a@, ps, av);
                        lemma_inst_height(b@, ps, av);
                    }
                    let (a2, ca) = match instantiate_params_go(&a, params, args, &mut g3) {
                        Err(e) => {
                            return Err(e);
                        },
                        Ok(p) => p,
                    };
                    let (b2, cb) = match instantiate_params_go(&b, params, args, &mut g3) {
                        Err(e) => {
                            return Err(e);
                        },
                        Ok(p) => p,
                    };
                    if ca || cb {
                        match Level::mk_imax_pair(a2, b2, &mut g3) {
                            Err(e) => Err(e),
                            Ok(x) => Ok((x, true)),
                        }
                    } else {
                        Ok((l2, false))
                    }
                };
            g.enter(f)
        },
    }
}
} // verus!
