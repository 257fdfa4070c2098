//! Size bounds on normal forms of universe levels: a normal form is no
//! taller than the square of the level's size and has no more `max`
//! arguments than the level has nodes. They bound the guard frames that
//! normalization needs.
use crate::expr::max_nat;
use crate::level::{
    dedup_from, dedup_start, explicit_run_end, ins_pos, lemma_max_args_nonempty,
    lemma_max_args_sizes, lemma_mk_imax_height, lemma_mk_max_height, lemma_normalize_args_nonempty,
    lemma_offset_base_size, lemma_sizes_elem, lemma_sizes_last, level_height, level_size,
    offset_base, offset_k, offset_reaches, sizes, spec_max_args, spec_max_list, spec_max_list_from,
    spec_mk_imax, spec_mk_max, spec_normalize, spec_normalize_args, spec_normalize_max, spec_sort,
    succ_count, succ_each, succ_n, SLevel,
};
use vstd::prelude::*;

verus! {

/// The number of `max` arguments of `l`.
pub open spec fn pieces(l: SLevel) -> nat {
    spec_max_args(l).len()
}

/// Every element of `s` is no `max` node and no taller than `b`.
pub open spec fn flat_below(s: Seq<SLevel>, b: nat) -> bool {
    forall|i: int| 0 <= i < s.len() ==> !(#[trigger] s[i] is Max) && level_height(s[i]) <= b
}

pub proof fn lemma_offset_size(l: SLevel)
    ensures
        level_size(offset_base(l)) + succ_count(l) == level_size(l),
        offset_k(l) <= succ_count(l),
    decreases l,
{
    if let SLevel::Succ(a) = l {
        lemma_offset_size(*a);
    }
}

pub proof fn lemma_height_below_size(l: SLevel)
    ensures
        level_height(l) < level_size(l),
    decreases l,
{
    match l {
        SLevel::Succ(a) => lemma_height_below_size(*a),
        SLevel::Max(a, b) | SLevel::IMax(a, b) => {
            lemma_height_below_size(*a);
            lemma_height_below_size(*b);
        },
        _ => {},
    }
}

/// The `max` arguments of `x` are no `max` nodes and no taller than `x`.
pub proof fn lemma_max_args_flat(x: SLevel)
    ensures
        flat_below(spec_max_args(x), level_height(x)),
    decreases x,
{
    if let SLevel::Max(a, b) = x {
        lemma_max_args_flat(*a);
        lemma_max_args_flat(*b);
        let s = spec_max_args(*a) + spec_max_args(*b);
        assert forall|i: int| 0 <= i < s.len() implies !(#[trigger] s[i] is Max) && level_height(s[i])
            <= level_height(x) by {
            if i < spec_max_args(*a).len() {
                assert(s[i] == spec_max_args(*a)[i]);
            } else {
                assert(s[i] == spec_max_args(*b)[i - spec_max_args(*a).len()]);
            }
        }
    }
}

pub proof fn lemma_pieces_mk_max(x: SLevel, y: SLevel)
    ensures
        pieces(spec_mk_max(x, y)) <= pieces(x) + pieces(y),
{
    lemma_max_args_nonempty(x);
    lemma_max_args_nonempty(y);
}

pub proof fn lemma_pieces_mk_imax(x: SLevel, y: SLevel)
    ensures
        pieces(spec_mk_imax(x, y)) <= pieces(x) + pieces(y),
{
    lemma_pieces_mk_max(x, y);
    lemma_max_args_nonempty(x);
    lemma_max_args_nonempty(y);
}

pub proof fn lemma_succ_n_shape(x: SLevel, k: nat)
    ensures
        level_height(succ_n(x, k)) == level_height(x) + k,
        !(x is Max) ==> !(succ_n(x, k) is Max),
        k > 0 ==> pieces(succ_n(x, k)) == 1,
        k == 0 ==> succ_n(x, k) == x,
    decreases k,
{
    if k > 0 {
        lemma_succ_n_shape(x, (k - 1) as nat);
    }
}

/// A right-nested `max` of flat levels is no taller than its length plus
/// its tallest element, and has at most as many arguments as elements.
pub proof fn lemma_max_list_from_bounds(s: Seq<SLevel>, i: nat, b: nat)
    requires
        i < s.len(),
        flat_below(s, b),
    ensures
        level_height(spec_max_list_from(s, i)) <= (s.len() - 1 - i) + b,
        pieces(spec_max_list_from(s, i)) <= s.len() - i,
    decreases s.len() - i,
{
    if i + 1 < s.len() {
        lemma_max_list_from_bounds(s, i + 1, b);
        lemma_mk_max_height(s[i as int], spec_max_list_from(s, i + 1));
        lemma_pieces_mk_max(s[i as int], spec_max_list_from(s, i + 1));
    }
}

/// Sorting keeps the length and the elements.
pub proof fn lemma_sort_flat(s: Seq<SLevel>, b: nat)
    requires
        flat_below(s, b),
    ensures
        flat_below(spec_sort(s), b),
        spec_sort(s).len() == s.len(),
    decreases s.len(),
{
    if s.len() > 0 {
        let d = s.drop_last();
        assert forall|i: int| 0 <= i < d.len() implies !(#[trigger] d[i] is Max) && level_height(d[i])
            <= b by {
            assert(d[i] == s[i]);
        }
        lemma_sort_flat(d, b);
        let t = spec_sort(d);
        lemma_ins_pos_bound(t, s.last());
        let r = t.insert(ins_pos(t, s.last()) as int, s.last());
        assert forall|i: int| 0 <= i < r.len() implies !(#[trigger] r[i] is Max) && level_height(r[i])
            <= b by {
            let p = ins_pos(t, s.last()) as int;
            if i < p {
                assert(r[i] == t[i]);
            } else if i == p {
                assert(r[i] == s.last());
            } else {
                assert(r[i] == t[i - 1]);
            }
        }
    }
}

proof fn lemma_ins_pos_bound(s: Seq<SLevel>, x: SLevel)
    ensures
        ins_pos(s, x) <= s.len(),
    decreases s.len(),
{
    if s.len() > 0 {
        lemma_ins_pos_bound(s.drop_last(), x);
    }
}

/// Keeping one argument per base keeps elements of the list, and no more
/// than it has.
pub proof fn lemma_dedup_flat(s: Seq<SLevel>, t: nat, acc: Seq<SLevel>, b: nat)
    requires
        flat_below(s, b),
        flat_below(acc, b),
        acc.len() >= 1,
    ensures
        flat_below(dedup_from(s, t, acc), b),
        dedup_from(s, t, acc).len() <= acc.len() + (if t <= s.len() {
            s.len() - t
        } else {
            0int
        }),
        dedup_from(s, t, acc).len() >= 1,
    decreases s.len() - t,
{
    if t < s.len() {
        let cur = s[t as int];
        let a1 = acc.drop_last().push(cur);
        let a2 = acc.push(cur);
        assert forall|i: int| 0 <= i < a1.len() implies !(#[trigger] a1[i] is Max) && level_height(
            a1[i],
        ) <= b by {
            if i < acc.len() - 1 {
                assert(a1[i] == acc[i]);
            }
        }
        assert forall|i: int| 0 <= i < a2.len() implies !(#[trigger] a2[i] is Max) && level_height(
            a2[i],
        ) <= b by {
            if i < acc.len() {
                assert(a2[i] == acc[i]);
            }
        }
        lemma_dedup_flat(s, t + 1, a1, b);
        lemma_dedup_flat(s, t + 1, a2, b);
        lemma_dedup_flat(s, t + 1, acc, b);
    }
}


/// Where replay of the sorted arguments starts: an index of the list.
proof fn lemma_dedup_start_bound(s: Seq<SLevel>)
    requires
        s.len() >= 1,
    ensures
        dedup_start(s) < s.len(),
{
    if crate::level::is_explicit(s[0]) {
        lemma_run_end_bound(s, 0);
        let i = explicit_run_end(s, 0);
        lemma_reaches_bound(s, i + 1, offset_k(s[i as int]));
    }
}

proof fn lemma_run_end_bound(s: Seq<SLevel>, i: nat)
    requires
        i < s.len(),
    ensures
        i <= explicit_run_end(s, i) < s.len(),
    decreases s.len() - i,
{
    if i + 1 < s.len() && crate::level::is_explicit(s[(i + 1) as int]) {
        lemma_run_end_bound(s, i + 1);
    }
}

proof fn lemma_reaches_bound(s: Seq<SLevel>, j: nat, k: nat)
    ensures
        offset_reaches(s, j, k) ==> j < s.len(),
    decreases s.len() - j,
{
    if j < s.len() {
        lemma_reaches_bound(s, j + 1, k);
    }
}

/// A normal form is no taller than the square of the level's size, and
/// has no more `max` arguments than the level has nodes.
pub proof fn lemma_normalize_bounds(l: SLevel)
    ensures
        level_height(spec_normalize(l)) <= level_size(l) * level_size(l),
        pieces(spec_normalize(l)) <= level_size(l),
    decreases level_size(l), 2nat,
{
    let base = offset_base(l);
    let k = offset_k(l);
    lemma_offset_size(l);
    lemma_offset_base_size(l);
    let n = level_size(l);
    match base {
        SLevel::IMax(lhs, rhs) => {
            lemma_normalize_bounds(*lhs);
            lemma_normalize_bounds(*rhs);
            let nl = spec_normalize(*lhs);
            let nr = spec_normalize(*rhs);
            let x = spec_mk_imax(nl, nr);
            lemma_mk_imax_height(nl, nr);
            lemma_pieces_mk_imax(nl, nr);
            lemma_succ_n_shape(x, k);
            let sl = level_size(*lhs);
            let sr = level_size(*rhs);
            assert(1 + sl + sr <= n);
            assert(level_height(x) <= 1 + max_nat(sl * sl, sr * sr)) by {
                assert(level_height(nl) <= sl * sl);
                assert(level_height(nr) <= sr * sr);
            }
            assert(1 + max_nat(sl * sl, sr * sr) + k <= n * n) by (nonlinear_arith)
                requires
                    1 + sl + sr + k <= n,
                    sl >= 1,
                    sr >= 1,
            ;
        },
        SLevel::Max(_, _) => {
            lemma_normalize_max_bounds(base, k);
            let sb = level_size(base);
            assert((sb + k) * (sb + k) <= n * n) by (nonlinear_arith)
                requires
                    sb + k <= n,
            ;
        },
        _ => {
            lemma_height_below_size(l);
            assert(n <= n * n) by (nonlinear_arith)
                requires
                    n >= 1,
            ;
            lemma_base_shape(l);
        },
    }
}

/// A level whose base is neither `max` nor `imax` is no `max` node.
proof fn lemma_base_shape(l: SLevel)
    requires
        !(offset_base(l) is Max),
    ensures
        !(l is Max),
{
}

/// The normal form of `succ^k(base)` for a `max` node `base`.
pub proof fn lemma_normalize_max_bounds(base: SLevel, k: nat)
    requires
        base is Max,
    ensures
        level_height(spec_normalize_max(base, k)) <= (level_size(base) + k) * (level_size(base) + k),
        pieces(spec_normalize_max(base, k)) <= level_size(base),
    decreases level_size(base), 1nat,
{
    let sb = level_size(base);
    let args = spec_max_args(base);
    lemma_max_args_sizes(base);
    crate::level::lemma_max_args_nonempty(base);
    let sa = sizes(args);
    lemma_normalize_args_bounds(args);
    let na = spec_normalize_args(args);
    lemma_normalize_args_nonempty(args);
    let bnd = sa * sa;
    lemma_sort_flat(na, bnd);
    let sorted = spec_sort(na);
    lemma_dedup_start_bound(sorted);
    let start = dedup_start(sorted);
    let first = seq![sorted[start as int]];
    assert(flat_below(first, bnd)) by {
        assert(first[0] == sorted[start as int]);
    }
    lemma_dedup_flat(sorted, start + 1, first, bnd);
    let kept = dedup_from(sorted, start + 1, first);
    let xs = succ_each(kept, k);
    assert(flat_below(xs, bnd + k)) by {
        assert forall|i: int| 0 <= i < xs.len() implies !(#[trigger] xs[i] is Max) && level_height(
            xs[i],
        ) <= bnd + k by {
            lemma_succ_n_shape(kept[i], k);
        }
    }
    lemma_max_list_from_bounds(xs, 0, bnd + k);
    assert(kept.len() <= sa);
    assert(sa + 1 <= sb);
    assert((sa + k) + sa * sa <= (sb + k) * (sb + k)) by (nonlinear_arith)
        requires
            sa + 1 <= sb,
    ;
}

/// The normalized arguments: no more of them than the arguments' total
/// size, each flat and no taller than the square of that size.
pub proof fn lemma_normalize_args_bounds(s: Seq<SLevel>)
    ensures
        spec_normalize_args(s).len() <= sizes(s),
        flat_below(spec_normalize_args(s), sizes(s) * sizes(s)),
    decreases sizes(s), 3nat,
{
    if s.len() > 0 {
        lemma_sizes_last(s);
        let d = s.drop_last();
        let x = s.last();
        lemma_normalize_args_bounds(d);
        lemma_normalize_bounds(x);
        let nx = spec_normalize(x);
        lemma_max_args_flat(nx);
        let total = sizes(s);
        let sd = sizes(d);
        let sx = level_size(x);
        assert(total == sd + sx);
        let r = spec_normalize_args(d) + spec_max_args(nx);
        assert(sd * sd <= total * total && sx * sx <= total * total) by (nonlinear_arith)
            requires
                total == sd + sx,
        ;
        assert forall|i: int| 0 <= i < r.len() implies !(#[trigger] r[i] is Max) && level_height(r[i])
            <= total * total by {
            if i < spec_normalize_args(d).len() {
                assert(r[i] == spec_normalize_args(d)[i]);
            } else {
                assert(r[i] == spec_max_args(nx)[i - spec_normalize_args(d).len()]);
            }
        }
    }
}


/// A list whose elements are no taller than `b` has height at most `b`.
pub proof fn lemma_levels_height_le(s: Seq<SLevel>, b: nat)
    requires
        forall|i: int| 0 <= i < s.len() ==> level_height(#[trigger] s[i]) <= b,
    ensures
        crate::expr::levels_height(s) <= b,
    decreases s.len(),
{
    if s.len() > 0 {
        let d = s.drop_last();
        assert forall|i: int| 0 <= i < d.len() implies level_height(#[trigger] d[i]) <= b by {
            assert(d[i] == s[i]);
        }
        lemma_levels_height_le(d, b);
    }
}

} // verus!
