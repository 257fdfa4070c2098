//! Lean hierarchical names. A name is viewed as its list of components,
//! root first: `Nat.succ` is `[Str "Nat", Str "succ"]` and `Anonymous` is
//! the empty list. Equality, ordering and rendering walk the parent chain
//! with loops, never recursion, since chains can be untrusted-deep.
use crate::hashing::{mix, str_hash};
use crate::num::{nat_decimal, Nat};
use std::sync::Arc;
use vstd::prelude::*;

verus! {

/// One component of a name.
pub enum NameComp {
    Str(Seq<char>),
    Num(nat),
}

/// Lean hierarchical name.
#[allow(inconsistent_fields)]
#[derive(Debug)]
pub enum Name {
    Anonymous,
    Str { parent: Arc<Name>, part: String },
    Num { parent: Arc<Name>, part: Nat },
}

/// The components of `n`, root first.
pub open spec fn name_view(n: Name) -> Seq<NameComp>
    decreases n,
{
    match n {
        Name::Anonymous => Seq::empty(),
        Name::Str { parent, part } => name_view(*parent).push(NameComp::Str(part@)),
        Name::Num { parent, part } => name_view(*parent).push(NameComp::Num(part@)),
    }
}

impl View for Name {
    type V = Seq<NameComp>;

    open spec fn view(&self) -> Seq<NameComp> {
        name_view(*self)
    }
}

/// The rendering of one component.
pub open spec fn comp_text(c: NameComp) -> Seq<char> {
    match c {
        NameComp::Str(s) => s,
        NameComp::Num(n) => nat_decimal(n),
    }
}

/// Components joined with `.`.
pub open spec fn comps_text(v: Seq<NameComp>) -> Seq<char>
    decreases v.len(),
{
    if v.len() == 0 {
        Seq::empty()
    } else if v.len() == 1 {
        comp_text(v[0])
    } else {
        comps_text(v.drop_last()) + seq!['.'] + comp_text(v.last())
    }
}

/// The rendering of a name: components joined with `.`, no escaping;
/// the anonymous name is `[anonymous]`.
pub open spec fn name_text(v: Seq<NameComp>) -> Seq<char> {
    if v.len() == 0 {
        "[anonymous]"@
    } else {
        comps_text(v)
    }
}

/// Strict lexicographic order on characters by code point.
pub open spec fn chars_lt(a: Seq<char>, b: Seq<char>) -> bool
    decreases a.len(),
{
    if b.len() == 0 {
        false
    } else if a.len() == 0 {
        true
    } else if a[0] != b[0] {
        (a[0] as u32) < (b[0] as u32)
    } else {
        chars_lt(a.drop_first(), b.drop_first())
    }
}

/// Order of two components: numeric before string, then by value.
pub open spec fn comp_lt(a: NameComp, b: NameComp) -> bool {
    match (a, b) {
        (NameComp::Str(x), NameComp::Str(y)) => chars_lt(x, y),
        (NameComp::Num(x), NameComp::Num(y)) => x < y,
        (NameComp::Num(_), NameComp::Str(_)) => true,
        (NameComp::Str(_), NameComp::Num(_)) => false,
    }
}

/// Strict total order on names: components root to leaf, a strict prefix
/// first.
pub open spec fn name_lt(a: Seq<NameComp>, b: Seq<NameComp>) -> bool
    decreases a.len(),
{
    if b.len() == 0 {
        false
    } else if a.len() == 0 {
        true
    } else if a[0] != b[0] {
        comp_lt(a[0], b[0])
    } else {
        name_lt(a.drop_first(), b.drop_first())
    }
}

/// Hash of one component.
pub open spec fn comp_hash(c: NameComp) -> u64 {
    match c {
        NameComp::Str(s) => mix(1, str_hash(s)),
        NameComp::Num(n) => mix(2, (n % 0x1_0000_0000_0000_0000) as u64),
    }
}

/// Hash of a name: its components folded root to leaf.
pub open spec fn name_hash(v: Seq<NameComp>) -> u64
    decreases v.len(),
{
    if v.len() == 0 {
        0
    } else {
        mix(name_hash(v.drop_last()), comp_hash(v.last()))
    }
}

/// The component list of `n`, leaf first, as references to its nodes.
fn chain(n: &Name) -> (r: Vec<&Name>)
    ensures
        r@.len() == n@.len(),
        forall|i: int|
            0 <= i < r@.len() ==> (#[trigger] r@[i])@ == n@.take(n@.len() - i) && !(r@[i] is Anonymous),
{
    let mut out: Vec<&Name> = Vec::new();
    let mut cur: &Name = n;
    loop
        invariant
            cur@.len() + out@.len() == n@.len(),
            cur@ == n@.take(cur@.len() as int),
            forall|i: int|
                0 <= i < out@.len() ==> (#[trigger] out@[i])@ == n@.take(n@.len() - i) && !(
                out@[i] is Anonymous),
        decreases cur@.len(),
    {
        match cur {
            Name::Anonymous => {
                return out;
            },
            Name::Str { parent, .. } => {
                out.push(cur);
                proof {
                    assert(parent@ =~= cur@.drop_last());
                    assert(n@.take(cur@.len() - 1) =~= cur@.drop_last());
                }
                cur = &**parent;
            },
            Name::Num { parent, .. } => {
                out.push(cur);
                proof {
                    assert(parent@ =~= cur@.drop_last());
                    assert(n@.take(cur@.len() - 1) =~= cur@.drop_last());
                }
                cur = &**parent;
            },
        }
    }
}

/// The rendering of one component.
fn comp_string(n: &Name) -> (r: String)
    requires
        !(n is Anonymous),
    ensures
        r@ == comp_text(n@.last()),
{
    proof {
        lemma_leaf(*n);
    }
    match n {
        Name::Anonymous => String::new(),
        Name::Str { part, .. } => part.clone(),
        Name::Num { part, .. } => part.to_string(),
    }
}

/// The characters of a string.
pub(crate) fn string_chars(s: &str) -> (r: Vec<char>)
    ensures
        r@ == s@,
{
    let mut out: Vec<char> = Vec::new();
    for c in it: s.chars()
        invariant
            it.seq() == s@,
            out@ == it.seq().take(it.index() as int),
    {
        proof {
            assert(it.seq().take(it.index() as int + 1) =~= out@.push(c));
        }
        out.push(c);
    }
    proof {
        assert(out@ =~= s@);
    }
    out
}

fn chars_less(a: &Vec<char>, b: &Vec<char>) -> (r: bool)
    ensures
        r == chars_lt(a@, b@),
{
    let mut i: usize = 0;
    proof {
        assert(a@.skip(0) =~= a@);
        assert(b@.skip(0) =~= b@);
    }
    while i < a.len() && i < b.len()
        invariant
            i <= a@.len(),
            i <= b@.len(),
            a@.take(i as int) == b@.take(i as int),
            chars_lt(a@, b@) == chars_lt(a@.skip(i as int), b@.skip(i as int)),
        decreases a@.len() - i,
    {
        if a[i] != b[i] {
            return (a[i] as u32) < (b[i] as u32);
        }
        proof {
            assert(a@.skip(i as int).drop_first() =~= a@.skip(i + 1));
            assert(b@.skip(i as int).drop_first() =~= b@.skip(i + 1));
            assert(a@.take(i + 1) =~= a@.take(i as int).push(a@[i as int]));
            assert(b@.take(i + 1) =~= b@.take(i as int).push(b@[i as int]));
        }
        i = i + 1;
    }
    i < b.len()
}

/// The order of two single components (`comp_lt`).
fn comp_less(x: &Name, y: &Name) -> (r: bool)
    requires
        !(x is Anonymous),
        !(y is Anonymous),
    ensures
        r == comp_lt(x@.last(), y@.last()),
{
    proof {
        lemma_leaf(*x);
        lemma_leaf(*y);
    }
    match (x, y) {
        (Name::Str { part: pa, .. }, Name::Str { part: pb, .. }) => {
            let ca = string_chars(pa.as_str());
            let cb = string_chars(pb.as_str());
            chars_less(&ca, &cb)
        },
        (Name::Num { part: pa, .. }, Name::Num { part: pb, .. }) => {
            pa.ble(pb) && !pb.ble(pa)
        },
        (Name::Num { .. }, Name::Str { .. }) => true,
        _ => false,
    }
}

/// Equality of single components.
fn comp_equal(x: &Name, y: &Name) -> (r: bool)
    requires
        !(x is Anonymous),
        !(y is Anonymous),
    ensures
        r == (x@.last() == y@.last()),
{
    proof {
        lemma_leaf(*x);
        lemma_leaf(*y);
    }
    match (x, y) {
        (Name::Str { part: pa, .. }, Name::Str { part: pb, .. }) => *pa == *pb,
        (Name::Num { part: pa, .. }, Name::Num { part: pb, .. }) => pa.beq(pb),
        _ => false,
    }
}

impl Name {
    /// The anonymous (empty) name.
    pub fn anonymous() -> (r: Arc<Name>)
        ensures
            r@ == Seq::<NameComp>::empty(),
    {
        Arc::new(Name::Anonymous)
    }

    /// `parent` extended by the string component `part`.
    pub fn mk_str(parent: Arc<Name>, part: &str) -> (r: Arc<Name>)
        ensures
            r@ == parent@.push(NameComp::Str(part@)),
    {
        Arc::new(Name::Str { parent, part: part.to_string() })
    }

    /// `parent` extended by the numeric component `part`.
    pub fn mk_num(parent: Arc<Name>, part: Nat) -> (r: Arc<Name>)
        ensures
            r@ == parent@.push(NameComp::Num(part@)),
    {
        Arc::new(Name::Num { parent, part })
    }

    /// The parent of a non-anonymous name.
    pub fn parent(&self) -> (r: Option<&Arc<Name>>)
        ensures
            self is Anonymous ==> r is None,
            !(self is Anonymous) ==> (r matches Some(p) && p@ == self@.drop_last()),
    {
        match self {
            Name::Anonymous => None,
            Name::Str { parent, .. } => Some(parent),
            Name::Num { parent, .. } => Some(parent),
        }
    }

    /// Equality of names, component by component from the leaf.
    pub fn equal(&self, other: &Name) -> (r: bool)
        ensures
            r == (self@ == other@),
    {
        let mut a: &Name = self;
        let mut b: &Name = other;
        loop
            invariant
                (self@ == other@) == (a@ == b@),
            decreases a@.len(),
        {
            proof {
                lemma_leaf(*a);
                lemma_leaf(*b);
            }
            match (a, b) {
                (Name::Anonymous, Name::Anonymous) => {
                    return true;
                },
                (Name::Str { parent: pa, part: sa }, Name::Str { parent: pb, part: sb }) => {
                    if !(*sa == *sb) {
                        proof {
                            assert(a@.last() != b@.last());
                        }
                        return false;
                    }
                    proof {
                        lemma_push_eq(pa@, pb@, a@.last(), b@.last());
                    }
                    a = &**pa;
                    b = &**pb;
                },
                (Name::Num { parent: pa, part: na }, Name::Num { parent: pb, part: nb }) => {
                    if !na.beq(nb) {
                        proof {
                            assert(a@.last() != b@.last());
                        }
                        return false;
                    }
                    proof {
                        lemma_push_eq(pa@, pb@, a@.last(), b@.last());
                    }
                    a = &**pa;
                    b = &**pb;
                },
                _ => {
                    proof {
                        if a@.len() > 0 && b@.len() > 0 {
                            assert(a@.last() != b@.last());
                        }
                    }
                    return false;
                },
            }
        }
    }

    /// The rendering of the name: components joined with `.`, no escaping;
    /// the anonymous name renders as `[anonymous]`.
    pub fn to_string(&self) -> (r: String)
        ensures
            r@ == name_text(self@),
    {
        if let Name::Anonymous = self {
            proof {
                reveal_strlit("[anonymous]");
            }
            return "[anonymous]".to_string();
        }
        let nodes = chain(self);
        let n = nodes.len();
        let mut out = String::new();
        let mut i: usize = n;
        while i > 0
            invariant
                nodes@.len() == n == self@.len(),
                n > 0,
                i <= n,
                forall|j: int|
                    0 <= j < nodes@.len() ==> (#[trigger] nodes@[j])@ == self@.take(self@.len() - j)
                        && !(nodes@[j] is Anonymous),
                out@ == comps_text(self@.take(n - i)),
            decreases i,
        {
            let node = nodes[i - 1];
            let part = comp_string(node);
            proof {
                let k = n - i;
                assert(node@ == self@.take(k + 1));
                assert(node@.last() == self@[k]);
                assert(self@.take(k + 1).drop_last() =~= self@.take(k));
                assert(self@.take(k + 1).last() == self@[k]);
                reveal_strlit(".");
            }
            if i < n {
                out.append(".");
            }
            out.append(part.as_str());
            i = i - 1;
        }
        proof {
            assert(self@.take(n as int) =~= self@);
        }
        out
    }

    /// Strict order on names (`name_lt`): components compared root to
    /// leaf, numeric components before string ones, a strict prefix first.
    pub fn less(&self, other: &Name) -> (r: bool)
        ensures
            r == name_lt(self@, other@),
    {
        let ca = chain(self);
        let cb = chain(other);
        let na = ca.len();
        let nb = cb.len();
        let mut i: usize = 0;
        proof {
            assert(self@.skip(0) =~= self@);
            assert(other@.skip(0) =~= other@);
        }
        while i < na && i < nb
            invariant
                ca@.len() == na == self@.len(),
                cb@.len() == nb == other@.len(),
                i <= na,
                i <= nb,
                forall|j: int|
                    0 <= j < ca@.len() ==> (#[trigger] ca@[j])@ == self@.take(self@.len() - j)
                        && !(ca@[j] is Anonymous),
                forall|j: int|
                    0 <= j < cb@.len() ==> (#[trigger] cb@[j])@ == other@.take(other@.len() - j)
                        && !(cb@[j] is Anonymous),
                name_lt(self@, other@) == name_lt(self@.skip(i as int), other@.skip(i as int)),
            decreases na - i,
        {
            let x = ca[na - 1 - i];
            let y = cb[nb - 1 - i];
            proof {
                assert(x@ == self@.take(i + 1));
                assert(y@ == other@.take(i + 1));
                assert(x@.last() == self@[i as int]);
                assert(y@.last() == other@[i as int]);
                assert(self@.skip(i as int)[0] == self@[i as int]);
                assert(other@.skip(i as int)[0] == other@[i as int]);
                assert(self@.skip(i as int).drop_first() =~= self@.skip(i + 1));
                assert(other@.skip(i as int).drop_first() =~= other@.skip(i + 1));
            }
            if !comp_equal(x, y) {
                return comp_less(x, y);
            }
            i = i + 1;
        }
        proof {
            assert(self@.skip(i as int).len() == na - i);
            assert(other@.skip(i as int).len() == nb - i);
        }
        i < nb
    }

    /// Hash of the name (`name_hash`), a pure function of its components.
    pub fn hash_u64(&self) -> (r: u64)
        ensures
            r == name_hash(self@),
    {
        let nodes = chain(self);
        let n = nodes.len();
        let mut h: u64 = 0;
        let mut i: usize = n;
        while i > 0
            invariant
                nodes@.len() == n == self@.len(),
                i <= n,
                forall|j: int|
                    0 <= j < nodes@.len() ==> (#[trigger] nodes@[j])@ == self@.take(self@.len() - j)
                        && !(nodes@[j] is Anonymous),
                h == name_hash(self@.take(n - i)),
            decreases i,
        {
            let node = nodes[i - 1];
            proof {
                let k = n - i;
                assert(node@ == self@.take(k + 1));
                assert(self@.take(k + 1).drop_last() =~= self@.take(k));
                assert(self@.take(k + 1).last() == self@[k]);
            }
            let ch = match node {
                Name::Str { part, .. } => {
                    let cs = string_chars(part.as_str());
                    mix(1, crate::hashing::chars_hash(&cs))
                },
                Name::Num { part, .. } => mix(2, part.low_u64()),
                Name::Anonymous => 0,
            };
            h = mix(h, ch);
            i = i - 1;
        }
        proof {
            assert(self@.take(n as int) =~= self@);
        }
        h
    }
}

impl PartialEq for Name {
    fn eq(&self, other: &Name) -> (r: bool) {
        self.equal(other)
    }
}

impl Eq for Name {

}

impl vstd::std_specs::cmp::PartialEqSpecImpl for Name {
    open spec fn obeys_eq_spec() -> bool {
        true
    }

    open spec fn eq_spec(&self, other: &Name) -> bool {
        self@ == other@
    }
}

/// The leaf component of a non-anonymous name.
pub open spec fn leaf_comp(n: Name) -> NameComp {
    match n {
        Name::Anonymous => NameComp::Num(0),
        Name::Str { part, .. } => NameComp::Str(part@),
        Name::Num { part, .. } => NameComp::Num(part@),
    }
}

proof fn lemma_leaf(n: Name)
    ensures
        !(n is Anonymous) ==> n@.len() > 0 && n@.last() == leaf_comp(n),
        n is Anonymous ==> n@.len() == 0,
{
    match n {
        Name::Anonymous => {},
        Name::Str { parent, part } => {
            assert(n@ == parent@.push(NameComp::Str(part@)));
        },
        Name::Num { parent, part } => {
            assert(n@ == parent@.push(NameComp::Num(part@)));
        },
    }
}

proof fn lemma_push_eq(a: Seq<NameComp>, b: Seq<NameComp>, x: NameComp, y: NameComp)
    requires
        x == y,
    ensures
        (a.push(x) == b.push(y)) == (a == b),
{
    if a.push(x) == b.push(y) {
        assert(a =~= a.push(x).drop_last());
        assert(b =~= b.push(y).drop_last());
    }
}

// ---------------------------------------------------------------------
// The order on names is a strict total order.
// ---------------------------------------------------------------------

/// Different characters have different code points.
proof fn lemma_char_code(c: char, d: char)
    ensures
        c != d ==> (c as u32) != (d as u32),
{
}

proof fn lemma_chars_lt_irreflexive(a: Seq<char>)
    ensures
        !chars_lt(a, a),
    decreases a.len(),
{
    if a.len() > 0 {
        lemma_chars_lt_irreflexive(a.drop_first());
    }
}

proof fn lemma_chars_lt_transitive(a: Seq<char>, b: Seq<char>, c: Seq<char>)
    requires
        chars_lt(a, b),
        chars_lt(b, c),
    ensures
        chars_lt(a, c),
    decreases a.len(),
{
    if a.len() > 0 && b.len() > 0 && c.len() > 0 && a[0] == b[0] && b[0] == c[0] {
        lemma_chars_lt_transitive(a.drop_first(), b.drop_first(), c.drop_first());
    }
}

proof fn lemma_chars_lt_total(a: Seq<char>, b: Seq<char>)
    requires
        a != b,
    ensures
        chars_lt(a, b) || chars_lt(b, a),
    decreases a.len(),
{
    if a.len() > 0 && b.len() > 0 && a[0] == b[0] {
        if a.drop_first() == b.drop_first() {
            assert(a =~= seq![a[0]] + a.drop_first());
            assert(b =~= seq![b[0]] + b.drop_first());
        }
        lemma_chars_lt_total(a.drop_first(), b.drop_first());
    } else if a.len() > 0 && b.len() > 0 {
        lemma_char_code(a[0], b[0]);
    } else if a.len() == 0 && b.len() == 0 {
        assert(a =~= b);
    }
}

proof fn lemma_comp_lt_order(x: NameComp, y: NameComp, z: NameComp)
    ensures
        !comp_lt(x, x),
        comp_lt(x, y) && comp_lt(y, z) ==> comp_lt(x, z),
        x != y ==> comp_lt(x, y) || comp_lt(y, x),
{
    match x {
        NameComp::Str(s) => lemma_chars_lt_irreflexive(s),
        _ => {},
    }
    match (x, y, z) {
        (NameComp::Str(a), NameComp::Str(b), NameComp::Str(c)) => {
            if chars_lt(a, b) && chars_lt(b, c) {
                lemma_chars_lt_transitive(a, b, c);
            }
        },
        _ => {},
    }
    match (x, y) {
        (NameComp::Str(a), NameComp::Str(b)) => {
            if a != b {
                lemma_chars_lt_total(a, b);
            }
        },
        _ => {},
    }
}

/// No name comes before itself.
pub proof fn law_name_lt_irreflexive(a: Seq<NameComp>)
    ensures
        !name_lt(a, a),
    decreases a.len(),
{
    if a.len() > 0 {
        law_name_lt_irreflexive(a.drop_first());
    }
}

/// A name before a second, itself before a third, comes before the third.
pub proof fn law_name_lt_transitive(a: Seq<NameComp>, b: Seq<NameComp>, c: Seq<NameComp>)
    requires
        name_lt(a, b),
        name_lt(b, c),
    ensures
        name_lt(a, c),
    decreases a.len(),
{
    if a.len() > 0 && b.len() > 0 && c.len() > 0 {
        if a[0] == b[0] && b[0] == c[0] {
            law_name_lt_transitive(a.drop_first(), b.drop_first(), c.drop_first());
        } else {
            lemma_comp_lt_order(a[0], b[0], c[0]);
            lemma_comp_lt_order(a[0], a[0], a[0]);
        }
    }
}

/// Of two different names, one comes before the other.
pub proof fn law_name_lt_total(a: Seq<NameComp>, b: Seq<NameComp>)
    requires
        a != b,
    ensures
        name_lt(a, b) || name_lt(b, a),
    decreases a.len(),
{
    if a.len() > 0 && b.len() > 0 {
        if a[0] == b[0] {
            if a.drop_first() == b.drop_first() {
                assert(a =~= seq![a[0]] + a.drop_first());
                assert(b =~= seq![b[0]] + b.drop_first());
            }
            law_name_lt_total(a.drop_first(), b.drop_first());
        } else {
            lemma_comp_lt_order(a[0], b[0], b[0]);
        }
    } else if a.len() == 0 && b.len() == 0 {
        assert(a =~= b);
    }
}

} // verus!
