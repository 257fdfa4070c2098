//! Laws of universe levels: the normalizing constructors, normalization,
//! equivalence and instantiation preserve the value of a level under every
//! assignment of its parameters and metavariables.
//!
//! Offsets are counted in `u64` and saturate; the laws hold for levels
//! whose root-to-leaf paths carry fewer than `u64::MAX` successors
//! (`succ_depth`), which every level held in memory does.
use crate::level::{
    lemma_base_not_succ, lemma_max_args_nonempty, lemma_max_args_sizes, lemma_normalize_args_nonempty,
    lemma_offset_base_size, lemma_sizes_elem, sizes,
    dedup_from, dedup_start, explicit_run_end, ins_pos, is_explicit, is_one, kind_rank, level_eval,
    level_size, offset_base, offset_k, offset_reaches, spec_inst, spec_is_equivalent, spec_max_args,
    spec_max_list, spec_max_list_from, spec_mk_imax, spec_mk_max, spec_never_zero, spec_norm_lt,
    spec_normalize, spec_normalize_args, spec_normalize_max, spec_sort, succ_count, succ_depth,
    succ_each, succ_n, SLevel, has_param_index, param_index, inst_assignment, spec_has_param,
};
use crate::name::NameComp;
use vstd::prelude::*;

verus! {

/// `a` below or equal to `b` under the assignment.
pub open spec fn max_nat(a: nat, b: nat) -> nat {
    if a >= b {
        a
    } else {
        b
    }
}

/// The largest value of the levels of `s` (`0` for none).
pub open spec fn max_eval(
    s: Seq<SLevel>,
    ps: spec_fn(Seq<NameComp>) -> nat,
    ms: spec_fn(Seq<NameComp>) -> nat,
) -> nat
    decreases s.len(),
{
    if s.len() == 0 {
        0
    } else {
        max_nat(max_eval(s.drop_last(), ps, ms), level_eval(s.last(), ps, ms))
    }
}

/// Paths of `l` carry fewer than `u64::MAX` successors.
pub open spec fn offsets_exact(l: SLevel) -> bool {
    succ_depth(l) < u64::MAX
}

/// `e` is no larger than `f` under every assignment, by their shapes:
/// same base with no more successors, or a numeral no larger than `f`'s
/// successor count.
pub open spec fn dominated(e: SLevel, f: SLevel) -> bool {
    (offset_base(e) == offset_base(f) || is_explicit(e)) && succ_count(e) <= succ_count(f)
}

// ---------------------------------------------------------------------
// Offsets.
// ---------------------------------------------------------------------

pub proof fn lemma_offset_split(l: SLevel, ps: spec_fn(Seq<NameComp>) -> nat, ms: spec_fn(
    Seq<NameComp>,
) -> nat)
    ensures
        level_eval(l, ps, ms) == succ_count(l) + level_eval(offset_base(l), ps, ms),
        succ_depth(l) == succ_count(l) + succ_depth(offset_base(l)),
        offset_base(offset_base(l)) == offset_base(l),
        succ_count(offset_base(l)) == 0,
    decreases l,
{
    if let SLevel::Succ(a) = l {
        lemma_offset_split(*a, ps, ms);
    }
}

pub proof fn lemma_offset_exact(l: SLevel)
    requires
        offsets_exact(l),
    ensures
        offset_k(l) == succ_count(l),
{
    lemma_offset_split(l, |n: Seq<NameComp>| 0nat, |n: Seq<NameComp>| 0nat);
}

pub proof fn lemma_succ_n(l: SLevel, k: nat, ps: spec_fn(Seq<NameComp>) -> nat, ms: spec_fn(
    Seq<NameComp>,
) -> nat)
    ensures
        level_eval(succ_n(l, k), ps, ms) == level_eval(l, ps, ms) + k,
        succ_depth(succ_n(l, k)) == succ_depth(l) + k,
        succ_count(succ_n(l, k)) == succ_count(l) + k,
        offset_base(succ_n(l, k)) == offset_base(l),
    decreases k,
{
    if k > 0 {
        lemma_succ_n(l, (k - 1) as nat, ps, ms);
    }
}

pub proof fn lemma_dominated_eval(e: SLevel, f: SLevel, ps: spec_fn(Seq<NameComp>) -> nat, ms: spec_fn(
    Seq<NameComp>,
) -> nat)
    requires
        dominated(e, f),
    ensures
        level_eval(e, ps, ms) <= level_eval(f, ps, ms),
{
    lemma_offset_split(e, ps, ms);
    lemma_offset_split(f, ps, ms);
}

pub proof fn lemma_dominated_trans(a: SLevel, b: SLevel, c: SLevel)
    requires
        dominated(a, b),
        dominated(b, c),
    ensures
        dominated(a, c),
{
}

// ---------------------------------------------------------------------
// The normalizing constructors.
// ---------------------------------------------------------------------

/// Positive under every assignment whenever `is_never_zero` says so.
pub proof fn lemma_never_zero(l: SLevel, ps: spec_fn(Seq<NameComp>) -> nat, ms: spec_fn(
    Seq<NameComp>,
) -> nat)
    requires
        spec_never_zero(l),
    ensures
        level_eval(l, ps, ms) > 0,
    decreases l,
{
    match l {
        SLevel::Max(a, b) => {
            if spec_never_zero(*a) {
                lemma_never_zero(*a, ps, ms);
            } else {
                lemma_never_zero(*b, ps, ms);
            }
        },
        SLevel::IMax(_, b) => {
            lemma_never_zero(*b, ps, ms);
        },
        _ => {},
    }
}

/// `mk_max_pair` builds a level whose value is the larger of the two.
pub proof fn lemma_mk_max_eval(l1: SLevel, l2: SLevel, ps: spec_fn(Seq<NameComp>) -> nat, ms: spec_fn(
    Seq<NameComp>,
) -> nat)
    requires
        offsets_exact(l1),
        offsets_exact(l2),
    ensures
        level_eval(spec_mk_max(l1, l2), ps, ms) == max_nat(
            level_eval(l1, ps, ms),
            level_eval(l2, ps, ms),
        ),
        succ_depth(spec_mk_max(l1, l2)) <= max_nat(succ_depth(l1), succ_depth(l2)),
{
    lemma_offset_split(l1, ps, ms);
    lemma_offset_split(l2, ps, ms);
    lemma_offset_exact(l1);
    lemma_offset_exact(l2);
}

/// `mk_imax_pair` builds a level whose value is `imax` of the two.
pub proof fn lemma_mk_imax_eval(l1: SLevel, l2: SLevel, ps: spec_fn(Seq<NameComp>) -> nat, ms: spec_fn(
    Seq<NameComp>,
) -> nat)
    requires
        offsets_exact(l1),
        offsets_exact(l2),
    ensures
        level_eval(spec_mk_imax(l1, l2), ps, ms) == (if level_eval(l2, ps, ms) == 0 {
            0
        } else {
            max_nat(level_eval(l1, ps, ms), level_eval(l2, ps, ms))
        }),
        succ_depth(spec_mk_imax(l1, l2)) <= max_nat(succ_depth(l1), succ_depth(l2)),
{
    lemma_offset_split(l1, ps, ms);
    lemma_offset_split(l2, ps, ms);
    lemma_offset_exact(l1);
    lemma_offset_exact(l2);
    if spec_never_zero(l2) {
        lemma_never_zero(l2, ps, ms);
        lemma_mk_max_eval(l1, l2, ps, ms);
    }
}


// ---------------------------------------------------------------------
// Largest value of a list.
// ---------------------------------------------------------------------

pub proof fn lemma_max_eval_append(a: Seq<SLevel>, b: Seq<SLevel>, ps: spec_fn(Seq<NameComp>) -> nat, ms: spec_fn(
    Seq<NameComp>,
) -> nat)
    ensures
        max_eval(a + b, ps, ms) == max_nat(max_eval(a, ps, ms), max_eval(b, ps, ms)),
    decreases b.len(),
{
    if b.len() == 0 {
        assert(a + b =~= a);
    } else {
        assert((a + b).drop_last() =~= a + b.drop_last());
        assert((a + b).last() == b.last());
        lemma_max_eval_append(a, b.drop_last(), ps, ms);
    }
}

pub proof fn lemma_max_eval_bound(s: Seq<SLevel>, i: int, ps: spec_fn(Seq<NameComp>) -> nat, ms: spec_fn(
    Seq<NameComp>,
) -> nat)
    requires
        0 <= i < s.len(),
    ensures
        level_eval(s[i], ps, ms) <= max_eval(s, ps, ms),
    decreases s.len(),
{
    if i < s.len() - 1 {
        lemma_max_eval_bound(s.drop_last(), i, ps, ms);
    }
}

pub proof fn lemma_max_eval_witness(s: Seq<SLevel>, ps: spec_fn(Seq<NameComp>) -> nat, ms: spec_fn(
    Seq<NameComp>,
) -> nat) -> (i: int)
    requires
        s.len() > 0,
    ensures
        0 <= i < s.len(),
        level_eval(s[i], ps, ms) == max_eval(s, ps, ms),
    decreases s.len(),
{
    if s.len() == 1 {
        assert(s.drop_last().len() == 0);
        assert(max_eval(s.drop_last(), ps, ms) == 0);
        assert(s.last() == s[0]);
        0
    } else {
        let j = lemma_max_eval_witness(s.drop_last(), ps, ms);
        assert(s.drop_last()[j] == s[j]);
        if max_eval(s.drop_last(), ps, ms) >= level_eval(s.last(), ps, ms) {
            j
        } else {
            s.len() - 1
        }
    }
}

/// Some level of `t` has a value at least `e`'s.
pub open spec fn bounded_in(e: SLevel, t: Seq<SLevel>, ps: spec_fn(Seq<NameComp>) -> nat, ms: spec_fn(
    Seq<NameComp>,
) -> nat) -> bool {
    exists|j: int| 0 <= j < t.len() && level_eval(e, ps, ms) <= level_eval(#[trigger] t[j], ps, ms)
}

/// A list each of whose values is at most some value of `t` has a largest
/// value at most `t`'s.
pub proof fn lemma_max_eval_le(s: Seq<SLevel>, t: Seq<SLevel>, ps: spec_fn(Seq<NameComp>) -> nat, ms: spec_fn(
    Seq<NameComp>,
) -> nat)
    requires
        forall|i: int| 0 <= i < s.len() ==> #[trigger] bounded_in(s[i], t, ps, ms),
    ensures
        max_eval(s, ps, ms) <= max_eval(t, ps, ms),
{
    if s.len() > 0 {
        let i = lemma_max_eval_witness(s, ps, ms);
        assert(bounded_in(s[i], t, ps, ms));
        let j = choose|j: int|
            0 <= j < t.len() && level_eval(s[i], ps, ms) <= level_eval(#[trigger] t[j], ps, ms);
        lemma_max_eval_bound(t, j, ps, ms);
    }
}

/// The flattened arguments of a `max` have its value, and no more
/// successors on a path.
pub proof fn lemma_max_args(l: SLevel, ps: spec_fn(Seq<NameComp>) -> nat, ms: spec_fn(
    Seq<NameComp>,
) -> nat)
    ensures
        max_eval(spec_max_args(l), ps, ms) == level_eval(l, ps, ms),
        forall|i: int|
            0 <= i < spec_max_args(l).len() ==> succ_depth(#[trigger] spec_max_args(l)[i])
                <= succ_depth(l),
    decreases l,
{
    match l {
        SLevel::Max(a, b) => {
            lemma_max_args(*a, ps, ms);
            lemma_max_args(*b, ps, ms);
            lemma_max_eval_append(spec_max_args(*a), spec_max_args(*b), ps, ms);
            let sa = spec_max_args(*a);
            let sb = spec_max_args(*b);
            assert(spec_max_args(l) == sa + sb);
            assert forall|i: int|
                0 <= i < spec_max_args(l).len() implies succ_depth(#[trigger] spec_max_args(l)[i])
                <= succ_depth(l) by {
                if i < sa.len() {
                    assert(spec_max_args(l)[i] == sa[i]);
                } else {
                    assert(spec_max_args(l)[i] == sb[i - sa.len()]);
                }
            }
        },
        _ => {
            assert(seq![l].drop_last() =~= Seq::<SLevel>::empty());
            assert(max_eval(seq![l].drop_last(), ps, ms) == 0);
            assert(seq![l].last() == l);
        },
    }
}

// ---------------------------------------------------------------------
// Sorting.
// ---------------------------------------------------------------------

pub proof fn lemma_ins_pos(t: Seq<SLevel>, x: SLevel)
    ensures
        ins_pos(t, x) <= t.len(),
        forall|q: int| ins_pos(t, x) <= q < t.len() ==> spec_norm_lt(x, #[trigger] t[q]),
        ins_pos(t, x) > 0 ==> !spec_norm_lt(x, t[ins_pos(t, x) - 1]),
    decreases t.len(),
{
    if t.len() > 0 {
        lemma_ins_pos(t.drop_last(), x);
        if spec_norm_lt(x, t.last()) {
            let p = ins_pos(t.drop_last(), x);
            assert forall|q: int| p <= q < t.len() implies spec_norm_lt(x, #[trigger] t[q]) by {
                if q < t.len() - 1 {
                    assert(t[q] == t.drop_last()[q]);
                }
            }
            if p > 0 {
                assert(t[p - 1] == t.drop_last()[p - 1]);
            }
        }
    }
}

/// Adjacent numerals come in ascending order.
pub open spec fn numerals_ascending(u: Seq<SLevel>) -> bool {
    forall|j: int|
        0 <= j < u.len() - 1 && is_explicit(#[trigger] u[j]) && is_explicit(u[j + 1]) ==> offset_k(
            u[j],
        ) <= offset_k(u[j + 1])
}

/// Inserting keeps the old elements and adds the new one.
pub proof fn lemma_insert_elems(t: Seq<SLevel>, p: int, x: SLevel, d: Seq<SLevel>)
    requires
        0 <= p <= t.len(),
        forall|i: int| 0 <= i < d.len() ==> t.contains(#[trigger] d[i]),
        forall|i: int| 0 <= i < t.len() ==> d.contains(#[trigger] t[i]),
    ensures
        forall|i: int| 0 <= i < d.push(x).len() ==> t.insert(p, x).contains(#[trigger] d.push(x)[i]),
        forall|i: int| 0 <= i < t.insert(p, x).len() ==> d.push(x).contains(#[trigger] t.insert(p, x)[i]),
{
    let u = t.insert(p, x);
    let s = d.push(x);
    assert(u[p] == x);
    assert forall|i: int| 0 <= i < s.len() implies u.contains(#[trigger] s[i]) by {
        if i == s.len() - 1 {
            assert(u[p] == s[i]);
        } else {
            assert(s[i] == d[i]);
            assert(t.contains(d[i]));
            let j = choose|j: int| 0 <= j < t.len() && t[j] == d[i];
            if j < p {
                assert(u[j] == t[j]);
            } else {
                assert(u[j + 1] == t[j]);
            }
        }
    }
    assert forall|i: int| 0 <= i < u.len() implies s.contains(#[trigger] u[i]) by {
        if i == p {
            assert(s[s.len() - 1] == u[i]);
        } else if i < p {
            assert(u[i] == t[i]);
            assert(d.contains(t[i]));
            let j = choose|j: int| 0 <= j < d.len() && d[j] == t[i];
            assert(s[j] == d[j]);
        } else {
            assert(u[i] == t[i - 1]);
            assert(d.contains(t[i - 1]));
            let j = choose|j: int| 0 <= j < d.len() && d[j] == t[i - 1];
            assert(s[j] == d[j]);
        }
    }
}

/// Inserting at `ins_pos` keeps adjacent numerals ascending.
pub proof fn lemma_insert_ascending(t: Seq<SLevel>, x: SLevel)
    requires
        numerals_ascending(t),
    ensures
        numerals_ascending(t.insert(ins_pos(t, x) as int, x)),
{
    lemma_ins_pos(t, x);
    let p = ins_pos(t, x) as int;
    let u = t.insert(p, x);
    assert(u[p] == x);
    assert forall|j: int|
        0 <= j < u.len() - 1 && is_explicit(#[trigger] u[j]) && is_explicit(u[j + 1]) implies offset_k(
        u[j],
    ) <= offset_k(u[j + 1]) by {
        if j + 1 < p {
            assert(u[j] == t[j] && u[j + 1] == t[j + 1]);
        } else if j + 1 == p {
            assert(u[j] == t[j]);
            assert(!spec_norm_lt(x, t[p - 1]));
            lemma_explicit_base(x);
            lemma_explicit_base(t[j]);
        } else if j == p {
            assert(u[j + 1] == t[j]);
            assert(spec_norm_lt(x, t[p]));
            lemma_explicit_base(x);
            lemma_explicit_base(t[j]);
        } else {
            assert(u[j] == t[j - 1] && u[j + 1] == t[j]);
        }
    }
}

/// Sorting keeps exactly the elements, and puts adjacent numerals in
/// ascending order.
pub proof fn lemma_sort(s: Seq<SLevel>)
    ensures
        spec_sort(s).len() == s.len(),
        forall|i: int| 0 <= i < s.len() ==> spec_sort(s).contains(#[trigger] s[i]),
        forall|i: int| 0 <= i < s.len() ==> s.contains(#[trigger] spec_sort(s)[i]),
        numerals_ascending(spec_sort(s)),
    decreases s.len(),
{
    if s.len() > 0 {
        let d = s.drop_last();
        let x = s.last();
        lemma_sort(d);
        let t = spec_sort(d);
        lemma_ins_pos(t, x);
        let p = ins_pos(t, x) as int;
        assert(spec_sort(s) == t.insert(p, x));
        assert(s =~= d.push(x));
        lemma_insert_elems(t, p, x, d);
        lemma_insert_ascending(t, x);
    }
}

pub proof fn lemma_explicit_base(l: SLevel)
    ensures
        is_explicit(l) ==> offset_base(l) == SLevel::Zero,
{
}


// ---------------------------------------------------------------------
// Dropping dominated arguments.
// ---------------------------------------------------------------------

/// Some level of `r` dominates `e`.
pub open spec fn covered(e: SLevel, r: Seq<SLevel>) -> bool {
    exists|j: int| 0 <= j < r.len() && dominated(e, #[trigger] r[j])
}

pub proof fn lemma_covered_trans(e: SLevel, f: SLevel, r: Seq<SLevel>)
    requires
        dominated(e, f),
        covered(f, r),
    ensures
        covered(e, r),
{
    let j = choose|j: int| 0 <= j < r.len() && dominated(f, #[trigger] r[j]);
    lemma_dominated_trans(e, f, r[j]);
}

/// All levels of `s` have exact offsets.
pub open spec fn all_exact(s: Seq<SLevel>) -> bool {
    forall|i: int| 0 <= i < s.len() ==> offsets_exact(#[trigger] s[i])
}

/// `dedup_from` keeps levels of `s`, and every level it passes over or
/// started with is dominated by a kept one.
pub proof fn lemma_dedup(s: Seq<SLevel>, t: nat, acc: Seq<SLevel>)
    requires
        acc.len() >= 1,
        t <= s.len(),
        all_exact(s),
        forall|j: int| 0 <= j < acc.len() ==> s.contains(#[trigger] acc[j]),
    ensures
        dedup_from(s, t, acc).len() >= 1,
        forall|j: int|
            0 <= j < dedup_from(s, t, acc).len() ==> s.contains(#[trigger] dedup_from(s, t, acc)[j]),
        forall|i: int| t <= i < s.len() ==> covered(#[trigger] s[i], dedup_from(s, t, acc)),
        forall|j: int| 0 <= j < acc.len() ==> covered(#[trigger] acc[j], dedup_from(s, t, acc)),
    decreases s.len() - t,
{
    let r = dedup_from(s, t, acc);
    if t >= s.len() {
        assert forall|j: int| 0 <= j < acc.len() implies covered(#[trigger] acc[j], r) by {
            assert(dominated(acc[j], r[j]));
        }
    } else {
        let cur = s[t as int];
        let last = acc.last();
        assert(s.contains(acc[acc.len() - 1]));
        let w = choose|w: int| 0 <= w < s.len() && s[w] == last;
        assert(offsets_exact(s[w]));
        assert(offsets_exact(s[t as int]));
        lemma_offset_exact(last);
        lemma_offset_exact(cur);
        if offset_base(cur) == offset_base(last) {
            if offset_k(last) < offset_k(cur) {
                let acc2 = acc.drop_last().push(cur);
                assert forall|j: int| 0 <= j < acc2.len() implies s.contains(#[trigger] acc2[j]) by {
                    if j < acc.len() - 1 {
                        assert(acc2[j] == acc[j]);
                    } else {
                        assert(s[t as int] == acc2[j]);
                    }
                }
                lemma_dedup(s, t + 1, acc2);
                assert(acc2[acc2.len() - 1] == cur);
                assert(covered(acc2[acc2.len() - 1], r));
                assert forall|j: int| 0 <= j < acc.len() implies covered(#[trigger] acc[j], r) by {
                    if j < acc.len() - 1 {
                        assert(acc2[j] == acc[j]);
                    } else {
                        lemma_covered_trans(acc[j], cur, r);
                    }
                }
            } else {
                lemma_dedup(s, t + 1, acc);
                assert(covered(acc[acc.len() - 1], r));
                lemma_covered_trans(cur, last, r);
            }
        } else {
            let acc2 = acc.push(cur);
            assert forall|j: int| 0 <= j < acc2.len() implies s.contains(#[trigger] acc2[j]) by {
                if j < acc.len() {
                    assert(acc2[j] == acc[j]);
                } else {
                    assert(s[t as int] == acc2[j]);
                }
            }
            lemma_dedup(s, t + 1, acc2);
            assert(acc2[acc2.len() - 1] == cur);
            assert forall|j: int| 0 <= j < acc.len() implies covered(#[trigger] acc[j], r) by {
                assert(acc2[j] == acc[j]);
            }
        }
    }
}

/// The run of numerals from `m` ends at `explicit_run_end`, in ascending
/// order.
pub proof fn lemma_run(s: Seq<SLevel>, m: nat)
    requires
        m < s.len(),
        is_explicit(s[m as int]),
        numerals_ascending(s),
    ensures
        m <= explicit_run_end(s, m) < s.len(),
        forall|j: int|
            m <= j <= explicit_run_end(s, m) ==> is_explicit(#[trigger] s[j]) && offset_k(s[j])
                <= offset_k(s[explicit_run_end(s, m) as int]),
    decreases s.len() - m,
{
    if m + 1 < s.len() && is_explicit(s[(m + 1) as int]) {
        lemma_run(s, m + 1);
        let e = explicit_run_end(s, m + 1);
        assert(offset_k(s[m as int]) <= offset_k(s[(m + 1) as int]));
    }
}

pub proof fn lemma_reaches(s: Seq<SLevel>, j: nat, k: nat) -> (q: int)
    requires
        offset_reaches(s, j, k),
    ensures
        j <= q < s.len(),
        offset_k(s[q]) >= k,
    decreases s.len() - j,
{
    if offset_k(s[j as int]) >= k {
        j as int
    } else {
        lemma_reaches(s, j + 1, k)
    }
}

/// Every argument of the sorted list is dominated by a kept one, and the
/// kept ones are arguments.
pub proof fn lemma_kept(s: Seq<SLevel>)
    requires
        s.len() >= 1,
        all_exact(s),
        numerals_ascending(s),
    ensures
        dedup_start(s) < s.len(),
        dedup_from(s, dedup_start(s) + 1, seq![s[dedup_start(s) as int]]).len() >= 1,
        forall|j: int|
            0 <= j < dedup_from(s, dedup_start(s) + 1, seq![s[dedup_start(s) as int]]).len()
                ==> s.contains(
                #[trigger] dedup_from(s, dedup_start(s) + 1, seq![s[dedup_start(s) as int]])[j],
            ),
        forall|i: int|
            0 <= i < s.len() ==> covered(
                #[trigger] s[i],
                dedup_from(s, dedup_start(s) + 1, seq![s[dedup_start(s) as int]]),
            ),
{
    let st = dedup_start(s);
    if is_explicit(s[0]) {
        lemma_run(s, 0);
        let e = explicit_run_end(s, 0);
        if offset_reaches(s, e + 1, offset_k(s[e as int])) {
            let q = lemma_reaches(s, e + 1, offset_k(s[e as int]));
            assert(st == e + 1);
        }
    }
    let acc = seq![s[st as int]];
    assert(acc[0] == s[st as int]);
    lemma_dedup(s, st + 1, acc);
    let r = dedup_from(s, st + 1, acc);
    assert(covered(acc[0], r));
    assert forall|i: int| 0 <= i < s.len() implies covered(#[trigger] s[i], r) by {
        if i > st {
        } else if i == st {
        } else {
            lemma_run(s, 0);
            let e = explicit_run_end(s, 0);
            lemma_offset_exact(s[i]);
            lemma_offset_exact(s[e as int]);
            if i < e {
                assert(dominated(s[i], s[e as int]));
                if st == e {
                    lemma_covered_trans(s[i], s[e as int], r);
                } else {
                    let q = lemma_reaches(s, e + 1, offset_k(s[e as int]));
                    lemma_offset_exact(s[q]);
                    assert(dominated(s[e as int], s[q]));
                    assert(covered(s[q], r));
                    lemma_covered_trans(s[e as int], s[q], r);
                    lemma_covered_trans(s[i], s[e as int], r);
                }
            } else {
                let q = lemma_reaches(s, e + 1, offset_k(s[e as int]));
                lemma_offset_exact(s[q]);
                assert(dominated(s[e as int], s[q]));
                assert(covered(s[q], r));
                lemma_covered_trans(s[e as int], s[q], r);
            }
        }
    }
}


// ---------------------------------------------------------------------
// Rebuilding.
// ---------------------------------------------------------------------

pub proof fn lemma_max_eval_single(x: SLevel, ps: spec_fn(Seq<NameComp>) -> nat, ms: spec_fn(
    Seq<NameComp>,
) -> nat)
    ensures
        max_eval(seq![x], ps, ms) == level_eval(x, ps, ms),
{
    assert(seq![x].drop_last() =~= Seq::<SLevel>::empty());
    assert(max_eval(seq![x].drop_last(), ps, ms) == 0);
    assert(seq![x].last() == x);
}

/// The right-associated `max` of `s[i..]` has the largest of their
/// values.
pub proof fn lemma_max_list_from(
    s: Seq<SLevel>,
    i: nat,
    bound: nat,
    ps: spec_fn(Seq<NameComp>) -> nat,
    ms: spec_fn(Seq<NameComp>) -> nat,
)
    requires
        i < s.len(),
        bound < u64::MAX,
        forall|j: int| 0 <= j < s.len() ==> succ_depth(#[trigger] s[j]) <= bound,
    ensures
        level_eval(spec_max_list_from(s, i), ps, ms) == max_eval(
            s.subrange(i as int, s.len() as int),
            ps,
            ms,
        ),
        succ_depth(spec_max_list_from(s, i)) <= bound,
    decreases s.len() - i,
{
    if i + 1 >= s.len() {
        assert(s.subrange(i as int, s.len() as int) =~= seq![s[i as int]]);
        lemma_max_eval_single(s[i as int], ps, ms);
    } else {
        lemma_max_list_from(s, i + 1, bound, ps, ms);
        let rest = spec_max_list_from(s, i + 1);
        lemma_mk_max_eval(s[i as int], rest, ps, ms);
        assert(s.subrange(i as int, s.len() as int) =~= seq![s[i as int]] + s.subrange(
            (i + 1) as int,
            s.len() as int,
        ));
        lemma_max_eval_append(seq![s[i as int]], s.subrange((i + 1) as int, s.len() as int), ps, ms);
        lemma_max_eval_single(s[i as int], ps, ms);
    }
}

pub proof fn lemma_max_list(s: Seq<SLevel>, bound: nat, ps: spec_fn(Seq<NameComp>) -> nat, ms: spec_fn(
    Seq<NameComp>,
) -> nat)
    requires
        s.len() >= 1,
        bound < u64::MAX,
        forall|j: int| 0 <= j < s.len() ==> succ_depth(#[trigger] s[j]) <= bound,
    ensures
        level_eval(spec_max_list(s), ps, ms) == max_eval(s, ps, ms),
        succ_depth(spec_max_list(s)) <= bound,
{
    lemma_max_list_from(s, 0, bound, ps, ms);
    assert(s.subrange(0, s.len() as int) =~= s);
}

pub proof fn lemma_succ_each(s: Seq<SLevel>, k: nat, ps: spec_fn(Seq<NameComp>) -> nat, ms: spec_fn(
    Seq<NameComp>,
) -> nat)
    requires
        s.len() >= 1,
    ensures
        max_eval(succ_each(s, k), ps, ms) == max_eval(s, ps, ms) + k,
        forall|j: int|
            0 <= j < s.len() ==> succ_depth(#[trigger] succ_each(s, k)[j]) == succ_depth(s[j]) + k,
    decreases s.len(),
{
    let u = succ_each(s, k);
    assert forall|j: int| 0 <= j < s.len() implies succ_depth(#[trigger] succ_each(s, k)[j])
        == succ_depth(s[j]) + k by {
        lemma_succ_n(s[j], k, ps, ms);
    }
    lemma_succ_n(s.last(), k, ps, ms);
    assert(u.last() == succ_n(s.last(), k));
    if s.len() == 1 {
        assert(u.drop_last().len() == 0);
        assert(s.drop_last().len() == 0);
        assert(max_eval(u.drop_last(), ps, ms) == 0);
        assert(max_eval(s.drop_last(), ps, ms) == 0);
    } else {
        assert(u.drop_last() =~= succ_each(s.drop_last(), k));
        lemma_succ_each(s.drop_last(), k, ps, ms);
    }
}

// ---------------------------------------------------------------------
// Normalization.
// ---------------------------------------------------------------------

/// Normalization keeps the value of a level under every assignment, and
/// adds no successors to any path.
pub proof fn lemma_normalize_eval(l: SLevel, ps: spec_fn(Seq<NameComp>) -> nat, ms: spec_fn(
    Seq<NameComp>,
) -> nat)
    requires
        offsets_exact(l),
    ensures
        level_eval(spec_normalize(l), ps, ms) == level_eval(l, ps, ms),
        succ_depth(spec_normalize(l)) <= succ_depth(l),
    decreases level_size(l), 2nat,
{
    let base = offset_base(l);
    let k = offset_k(l);
    lemma_offset_split(l, ps, ms);
    lemma_offset_base_size(l);
    lemma_offset_exact(l);
    match base {
        SLevel::IMax(lhs, rhs) => {
            lemma_normalize_eval(*lhs, ps, ms);
            lemma_normalize_eval(*rhs, ps, ms);
            let im = spec_mk_imax(spec_normalize(*lhs), spec_normalize(*rhs));
            lemma_mk_imax_eval(spec_normalize(*lhs), spec_normalize(*rhs), ps, ms);
            lemma_succ_n(im, k, ps, ms);
        },
        SLevel::Max(_, _) => {
            lemma_normalize_max_eval(base, k, ps, ms);
        },
        _ => {},
    }
}

/// The normalized, flattened arguments have the arguments' largest value.
pub proof fn lemma_normalize_args_eval(
    s: Seq<SLevel>,
    bound: nat,
    ps: spec_fn(Seq<NameComp>) -> nat,
    ms: spec_fn(Seq<NameComp>) -> nat,
)
    requires
        bound < u64::MAX,
        forall|i: int| 0 <= i < s.len() ==> succ_depth(#[trigger] s[i]) <= bound,
    ensures
        max_eval(spec_normalize_args(s), ps, ms) == max_eval(s, ps, ms),
        forall|j: int|
            0 <= j < spec_normalize_args(s).len() ==> succ_depth(
                #[trigger] spec_normalize_args(s)[j],
            ) <= bound,
    decreases sizes(s), 3nat,
{
    if s.len() > 0 {
        crate::level::lemma_sizes_last(s);
        let d = s.drop_last();
        assert forall|i: int| 0 <= i < d.len() implies succ_depth(#[trigger] d[i]) <= bound by {
            assert(d[i] == s[i]);
        }
        lemma_normalize_args_eval(d, bound, ps, ms);
        assert(succ_depth(s[s.len() - 1]) <= bound);
        lemma_normalize_eval(s.last(), ps, ms);
        let n = spec_normalize(s.last());
        lemma_max_args(n, ps, ms);
        let a = spec_normalize_args(d);
        let b = spec_max_args(n);
        lemma_max_eval_append(a, b, ps, ms);
        assert(spec_normalize_args(s) == a + b);
        assert forall|j: int| 0 <= j < (a + b).len() implies succ_depth(#[trigger] (a + b)[j]) <= bound by {
            if j < a.len() {
                assert((a + b)[j] == a[j]);
            } else {
                assert((a + b)[j] == b[j - a.len()]);
            }
        }
    }
}

/// Normalizing `succ^k(base)` for a `max` node `base` keeps its value.
pub proof fn lemma_normalize_max_eval(base: SLevel, k: nat, ps: spec_fn(Seq<NameComp>) -> nat, ms: spec_fn(
    Seq<NameComp>,
) -> nat)
    requires
        base is Max,
        k + succ_depth(base) < u64::MAX,
    ensures
        level_eval(spec_normalize_max(base, k), ps, ms) == level_eval(base, ps, ms) + k,
        succ_depth(spec_normalize_max(base, k)) <= succ_depth(base) + k,
    decreases level_size(base), 1nat,
{
    let bound = succ_depth(base);
    let args_left = spec_max_args(base);
    lemma_max_args_sizes(base);
    lemma_max_args_nonempty(base);
    lemma_max_args(base, ps, ms);
    lemma_normalize_args_eval(args_left, bound, ps, ms);
    let args = spec_normalize_args(args_left);
    lemma_normalize_args_nonempty(args_left);
    let sorted = spec_sort(args);
    lemma_sort(args);
    assert forall|i: int| 0 <= i < sorted.len() implies offsets_exact(#[trigger] sorted[i]) by {
        assert(args.contains(sorted[i]));
        let j = choose|j: int| 0 <= j < args.len() && args[j] == sorted[i];
    }
    assert forall|i: int| 0 <= i < sorted.len() implies succ_depth(#[trigger] sorted[i]) <= bound by {
        assert(args.contains(sorted[i]));
        let j = choose|j: int| 0 <= j < args.len() && args[j] == sorted[i];
    }
    assert forall|i: int| 0 <= i < sorted.len() implies #[trigger] bounded_in(sorted[i], args, ps, ms) by {
        assert(args.contains(sorted[i]));
        let j = choose|j: int| 0 <= j < args.len() && args[j] == sorted[i];
    }
    assert forall|i: int| 0 <= i < args.len() implies #[trigger] bounded_in(args[i], sorted, ps, ms) by {
        assert(sorted.contains(args[i]));
        let j = choose|j: int| 0 <= j < sorted.len() && sorted[j] == args[i];
    }
    lemma_max_eval_le(sorted, args, ps, ms);
    lemma_max_eval_le(args, sorted, ps, ms);
    lemma_kept(sorted);
    let start = dedup_start(sorted);
    let kept = dedup_from(sorted, start + 1, seq![sorted[start as int]]);
    assert forall|i: int| 0 <= i < sorted.len() implies #[trigger] bounded_in(sorted[i], kept, ps, ms) by {
        assert(covered(sorted[i], kept));
        let j = choose|j: int| 0 <= j < kept.len() && dominated(sorted[i], #[trigger] kept[j]);
        lemma_dominated_eval(sorted[i], kept[j], ps, ms);
    }
    assert forall|i: int| 0 <= i < kept.len() implies #[trigger] bounded_in(kept[i], sorted, ps, ms) by {
        assert(sorted.contains(kept[i]));
        let j = choose|j: int| 0 <= j < sorted.len() && sorted[j] == kept[i];
    }
    assert forall|i: int| 0 <= i < kept.len() implies succ_depth(#[trigger] kept[i]) <= bound by {
        assert(sorted.contains(kept[i]));
        let j = choose|j: int| 0 <= j < sorted.len() && sorted[j] == kept[i];
    }
    lemma_max_eval_le(sorted, kept, ps, ms);
    lemma_max_eval_le(kept, sorted, ps, ms);
    let out = succ_each(kept, k);
    lemma_succ_each(kept, k, ps, ms);
    assert forall|j: int| 0 <= j < out.len() implies succ_depth(#[trigger] out[j]) <= bound + k by {
        assert(succ_depth(succ_each(kept, k)[j]) == succ_depth(kept[j]) + k);
    }
    lemma_max_list(out, bound + k, ps, ms);
}

/// Equivalent levels, as `is_equivalent` decides it, have equal values
/// under every assignment.
pub proof fn lemma_is_equivalent_sound(a: SLevel, b: SLevel, ps: spec_fn(Seq<NameComp>) -> nat, ms: spec_fn(
    Seq<NameComp>,
) -> nat)
    requires
        offsets_exact(a),
        offsets_exact(b),
        spec_is_equivalent(a, b),
    ensures
        level_eval(a, ps, ms) == level_eval(b, ps, ms),
{
    if a != b {
        lemma_normalize_eval(a, ps, ms);
        lemma_normalize_eval(b, ps, ms);
    }
}


// ---------------------------------------------------------------------
// Instantiation.
// ---------------------------------------------------------------------

/// A level without parameters has one value whatever the parameters are.
pub proof fn lemma_no_param_eval(
    l: SLevel,
    p1: spec_fn(Seq<NameComp>) -> nat,
    p2: spec_fn(Seq<NameComp>) -> nat,
    ms: spec_fn(Seq<NameComp>) -> nat,
)
    requires
        !spec_has_param(l),
    ensures
        level_eval(l, p1, ms) == level_eval(l, p2, ms),
    decreases l,
{
    match l {
        SLevel::Succ(a) => lemma_no_param_eval(*a, p1, p2, ms),
        SLevel::Max(a, b) | SLevel::IMax(a, b) => {
            lemma_no_param_eval(*a, p1, p2, ms);
            lemma_no_param_eval(*b, p1, p2, ms);
        },
        _ => {},
    }
}

/// When a parameter is paired with an argument, `param_index` is the
/// first such pair.
pub proof fn lemma_param_index(ps: Seq<Seq<NameComp>>, args: Seq<SLevel>, n: Seq<NameComp>)
    requires
        has_param_index(ps, args, n),
    ensures
        0 <= param_index(ps, args, n) < ps.len(),
        param_index(ps, args, n) < args.len(),
        ps[param_index(ps, args, n)] == n,
{
    let w = choose|w: int| 0 <= w < ps.len() && w < args.len() && ps[w] == n;
    let m = lemma_first_match(ps, args, n, w);
}

proof fn lemma_first_match(ps: Seq<Seq<NameComp>>, args: Seq<SLevel>, n: Seq<NameComp>, w: int) -> (m: int)
    requires
        0 <= w < ps.len() && w < args.len() && ps[w] == n,
    ensures
        0 <= m <= w,
        ps[m] == n,
        forall|j: int| 0 <= j < m ==> ps[j] != n,
    decreases w,
{
    if exists|j: int| 0 <= j < w && ps[j] == n {
        let j = choose|j: int| 0 <= j < w && ps[j] == n;
        lemma_first_match(ps, args, n, j)
    } else {
        w
    }
}

/// Instantiating `l` gives the value `l` takes when each instantiated
/// parameter takes its argument's value; a result flagged unchanged is `l`
/// itself, with the same value under both assignments.
pub proof fn lemma_instantiate_eval(
    l: SLevel,
    ps: Seq<Seq<NameComp>>,
    args: Seq<SLevel>,
    bound: nat,
    vp: spec_fn(Seq<NameComp>) -> nat,
    vm: spec_fn(Seq<NameComp>) -> nat,
)
    requires
        forall|i: int| 0 <= i < args.len() ==> succ_depth(#[trigger] args[i]) <= bound,
        succ_depth(l) + bound < u64::MAX,
    ensures
        level_eval(spec_inst(l, ps, args).0, vp, vm) == level_eval(
            l,
            inst_assignment(ps, args, vp, vm),
            vm,
        ),
        !spec_inst(l, ps, args).1 ==> spec_inst(l, ps, args).0 == l && level_eval(l, vp, vm)
            == level_eval(l, inst_assignment(ps, args, vp, vm), vm),
        succ_depth(spec_inst(l, ps, args).0) <= succ_depth(l) + bound,
    decreases l,
{
    let sig = inst_assignment(ps, args, vp, vm);
    if !spec_has_param(l) {
        lemma_no_param_eval(l, vp, sig, vm);
    } else {
        match l {
            SLevel::Param(n) => {
                if has_param_index(ps, args, n) {
                    lemma_param_index(ps, args, n);
                }
            },
            SLevel::Succ(a) => {
                lemma_instantiate_eval(*a, ps, args, bound, vp, vm);
            },
            SLevel::Max(a, b) => {
                lemma_instantiate_eval(*a, ps, args, bound, vp, vm);
                lemma_instantiate_eval(*b, ps, args, bound, vp, vm);
                let a2 = spec_inst(*a, ps, args).0;
                let b2 = spec_inst(*b, ps, args).0;
                lemma_mk_max_eval(a2, b2, vp, vm);
            },
            SLevel::IMax(a, b) => {
                lemma_instantiate_eval(*a, ps, args, bound, vp, vm);
                lemma_instantiate_eval(*b, ps, args, bound, vp, vm);
                let a2 = spec_inst(*a, ps, args).0;
                let b2 = spec_inst(*b, ps, args).0;
                lemma_mk_imax_eval(a2, b2, vp, vm);
            },
            _ => {},
        }
    }
}

/// Universe level equivalence, as `Level::is_equivalent` decides it, is
/// reflexive, symmetric and transitive.
pub proof fn law_level_equivalence(a: SLevel, b: SLevel, c: SLevel)
    ensures
        spec_is_equivalent(a, a),
        spec_is_equivalent(a, b) == spec_is_equivalent(b, a),
        spec_is_equivalent(a, b) && spec_is_equivalent(b, c) ==> spec_is_equivalent(a, c),
{
}

} // verus!
