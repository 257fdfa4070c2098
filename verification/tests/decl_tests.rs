use leanr_kernel::{
    constant_info_eq, AxiomVal, ConstantInfo, ConstantVal, ConstructorVal, DefinitionSafety,
    DefinitionVal, Expr, InductiveVal, Level, Name, Nat, OpaqueVal, QuotKind, QuotVal, RecGuard,
    RecursorRule, RecursorVal, ReducibilityHints, TheoremVal,
};
use std::sync::Arc;

fn nm(s: &str) -> Arc<Name> {
    Arc::new(Name::Str { parent: Arc::new(Name::Anonymous), part: s.to_string() })
}
fn ty() -> Arc<Expr> {
    Expr::sort(Arc::new(Level::Zero), &mut RecGuard::new()).unwrap()
}
fn ty2() -> Arc<Expr> {
    Expr::sort(Level::mk_succ(Arc::new(Level::Zero)), &mut RecGuard::new()).unwrap()
}
fn cval(name: &str, level_params: Vec<Arc<Name>>) -> ConstantVal {
    ConstantVal { name: nm(name), level_params, ty: ty() }
}
fn assert_ne_ci(a: &ConstantInfo, b: &ConstantInfo) {
    assert!(!constant_info_eq(a, b, &mut RecGuard::new()).unwrap());
}
fn assert_eq_ci(a: &ConstantInfo, b: &ConstantInfo) {
    assert!(constant_info_eq(a, b, &mut RecGuard::new()).unwrap());
}
fn n(v: u64) -> Nat {
    Nat::from_u64(v)
}

#[test]
fn eq_distinguishes_every_field() {
    // ConstantVal.name
    let a1 = ConstantInfo::Axiom(AxiomVal { val: cval("a", vec![]), is_unsafe: false });
    let a2 = ConstantInfo::Axiom(AxiomVal { val: cval("b", vec![]), is_unsafe: false });
    assert_ne_ci(&a1, &a2);

    // ConstantVal.level_params (one differing element)
    let lp1 = ConstantInfo::Axiom(AxiomVal { val: cval("a", vec![nm("u")]), is_unsafe: false });
    let lp2 = ConstantInfo::Axiom(AxiomVal { val: cval("a", vec![nm("v")]), is_unsafe: false });
    assert_ne_ci(&lp1, &lp2);

    // ConstantVal.ty
    let t1 = ConstantInfo::Axiom(AxiomVal {
        val: ConstantVal { name: nm("a"), level_params: vec![], ty: ty() },
        is_unsafe: false,
    });
    let t2 = ConstantInfo::Axiom(AxiomVal {
        val: ConstantVal { name: nm("a"), level_params: vec![], ty: ty2() },
        is_unsafe: false,
    });
    assert_ne_ci(&t1, &t2);

    // AxiomVal.is_unsafe
    let iu1 = ConstantInfo::Axiom(AxiomVal { val: cval("a", vec![]), is_unsafe: false });
    let iu2 = ConstantInfo::Axiom(AxiomVal { val: cval("a", vec![]), is_unsafe: true });
    assert_ne_ci(&iu1, &iu2);

    // DefinitionVal.value
    let mk_def = |value: Arc<Expr>, hints, safety, all: Vec<Arc<Name>>| {
        ConstantInfo::Defn(DefinitionVal { val: cval("d", vec![]), value, hints, safety, all })
    };
    let dv1 = mk_def(ty(), ReducibilityHints::Regular(0), DefinitionSafety::Safe, vec![nm("d")]);
    let dv2 = mk_def(ty2(), ReducibilityHints::Regular(0), DefinitionSafety::Safe, vec![nm("d")]);
    assert_ne_ci(&dv1, &dv2);
    // DefinitionVal.hints
    let dh = mk_def(ty(), ReducibilityHints::Opaque, DefinitionSafety::Safe, vec![nm("d")]);
    assert_ne_ci(&dv1, &dh);
    // DefinitionVal.safety
    let ds = mk_def(ty(), ReducibilityHints::Regular(0), DefinitionSafety::Unsafe, vec![nm("d")]);
    assert_ne_ci(&dv1, &ds);
    // DefinitionVal.all
    let da = mk_def(ty(), ReducibilityHints::Regular(0), DefinitionSafety::Safe, vec![nm("other")]);
    assert_ne_ci(&dv1, &da);

    // ConstructorVal fields
    let mk_ctor = |induct: &str, cidx: u64, num_params: u64, num_fields: u64, is_unsafe: bool| {
        ConstantInfo::Ctor(ConstructorVal {
            val: cval("I.mk", vec![]),
            induct: nm(induct),
            cidx: n(cidx),
            num_params: n(num_params),
            num_fields: n(num_fields),
            is_unsafe,
        })
    };
    let ci1 = mk_ctor("I", 0, 0, 0, false);
    assert_ne_ci(&ci1, &mk_ctor("J", 0, 0, 0, false));
    assert_ne_ci(&ci1, &mk_ctor("I", 1, 0, 0, false));
    assert_ne_ci(&ci1, &mk_ctor("I", 0, 1, 0, false));
    assert_ne_ci(&ci1, &mk_ctor("I", 0, 0, 1, false));
    assert_ne_ci(&ci1, &mk_ctor("I", 0, 0, 0, true));

    // QuotVal.kind
    let q1 = ConstantInfo::Quot(QuotVal { val: cval("q", vec![]), kind: QuotKind::Type });
    let q2 = ConstantInfo::Quot(QuotVal { val: cval("q", vec![]), kind: QuotKind::Ctor });
    assert_ne_ci(&q1, &q2);

    // InductiveVal base + one-field perturbations.
    let mk_ind = |num_params: u64,
                  num_indices: u64,
                  all: Vec<Arc<Name>>,
                  ctors: Vec<Arc<Name>>,
                  num_nested: u64,
                  is_rec: bool,
                  is_unsafe: bool,
                  is_reflexive: bool| {
        ConstantInfo::Induct(InductiveVal {
            val: cval("I", vec![]),
            num_params: n(num_params),
            num_indices: n(num_indices),
            all,
            ctors,
            num_nested: n(num_nested),
            is_rec,
            is_unsafe,
            is_reflexive,
        })
    };
    let ind_base = mk_ind(0, 0, vec![nm("I")], vec![nm("I.mk")], 0, false, false, false);
    let ind_np = mk_ind(1, 0, vec![nm("I")], vec![nm("I.mk")], 0, false, false, false);
    let ind_ni = mk_ind(0, 1, vec![nm("I")], vec![nm("I.mk")], 0, false, false, false);
    let ind_all = mk_ind(0, 0, vec![nm("J")], vec![nm("I.mk")], 0, false, false, false);
    let ind_ctors = mk_ind(0, 0, vec![nm("I")], vec![nm("I.other")], 0, false, false, false);
    let ind_nn = mk_ind(0, 0, vec![nm("I")], vec![nm("I.mk")], 1, false, false, false);
    let ind_rec = mk_ind(0, 0, vec![nm("I")], vec![nm("I.mk")], 0, true, false, false);
    let ind_unsafe = mk_ind(0, 0, vec![nm("I")], vec![nm("I.mk")], 0, false, true, false);
    let ind_reflexive = mk_ind(0, 0, vec![nm("I")], vec![nm("I.mk")], 0, false, false, true);
    assert_eq_ci(&ind_base, &ind_base);
    assert_ne_ci(&ind_base, &ind_np);
    assert_ne_ci(&ind_base, &ind_ni);
    assert_ne_ci(&ind_base, &ind_all);
    assert_ne_ci(&ind_base, &ind_ctors);
    assert_ne_ci(&ind_base, &ind_nn);
    assert_ne_ci(&ind_base, &ind_rec);
    assert_ne_ci(&ind_base, &ind_unsafe);
    assert_ne_ci(&ind_base, &ind_reflexive);

    // RecursorVal base + one-field perturbations.
    let rule = |nfields: u64, rhs: Arc<Expr>| RecursorRule { ctor: nm("I.mk"), nfields: n(nfields), rhs };
    let mk_rec = |num_indices: u64, num_motives: u64, num_minors: u64, rules: Vec<RecursorRule>, k: bool| {
        ConstantInfo::Rec(RecursorVal {
            val: cval("I.rec", vec![]),
            all: vec![nm("I.rec")],
            num_params: n(0),
            num_indices: n(num_indices),
            num_motives: n(num_motives),
            num_minors: n(num_minors),
            rules,
            k,
            is_unsafe: false,
        })
    };
    let rec_base = mk_rec(0, 1, 1, vec![rule(0, ty())], false);
    let rec_rhs = mk_rec(0, 1, 1, vec![rule(0, ty2())], false);
    let rec_nfields = mk_rec(0, 1, 1, vec![rule(1, ty())], false);
    let rec_k = mk_rec(0, 1, 1, vec![rule(0, ty())], true);
    let rec_nm = mk_rec(0, 2, 1, vec![rule(0, ty())], false);
    let rec_nmin = mk_rec(0, 1, 2, vec![rule(0, ty())], false);
    let rec_ni = mk_rec(1, 1, 1, vec![rule(0, ty())], false);
    assert_eq_ci(&rec_base, &rec_base);
    assert_ne_ci(&rec_base, &rec_rhs);
    assert_ne_ci(&rec_base, &rec_nfields);
    assert_ne_ci(&rec_base, &rec_k);
    assert_ne_ci(&rec_base, &rec_nm);
    assert_ne_ci(&rec_base, &rec_nmin);
    assert_ne_ci(&rec_base, &rec_ni);

    // Kind mismatch => false.
    assert_ne_ci(&a1, &dv1);
}

fn all_kinds() -> Vec<ConstantInfo> {
    vec![
        ConstantInfo::Axiom(AxiomVal { val: cval("a", vec![]), is_unsafe: false }),
        ConstantInfo::Defn(DefinitionVal {
            val: cval("d", vec![]),
            value: ty(),
            hints: ReducibilityHints::Regular(0),
            safety: DefinitionSafety::Safe,
            all: vec![nm("d")],
        }),
        ConstantInfo::Thm(TheoremVal { val: cval("t", vec![]), value: ty(), all: vec![nm("t")] }),
        ConstantInfo::Opaque(OpaqueVal {
            val: cval("o", vec![]),
            value: ty(),
            is_unsafe: false,
            all: vec![nm("o")],
        }),
        ConstantInfo::Quot(QuotVal { val: cval("q", vec![]), kind: QuotKind::Type }),
        ConstantInfo::Induct(InductiveVal {
            val: cval("I", vec![]),
            num_params: n(0),
            num_indices: n(0),
            all: vec![nm("I")],
            ctors: vec![nm("I.mk")],
            num_nested: n(0),
            is_rec: false,
            is_unsafe: false,
            is_reflexive: false,
        }),
        ConstantInfo::Ctor(ConstructorVal {
            val: cval("I.mk", vec![]),
            induct: nm("I"),
            cidx: n(0),
            num_params: n(0),
            num_fields: n(0),
            is_unsafe: false,
        }),
        ConstantInfo::Rec(RecursorVal {
            val: cval("I.rec", vec![]),
            all: vec![nm("I.rec")],
            num_params: n(0),
            num_indices: n(0),
            num_motives: n(1),
            num_minors: n(1),
            rules: vec![RecursorRule { ctor: nm("I.mk"), nfields: n(0), rhs: ty() }],
            k: false,
            is_unsafe: false,
        }),
    ]
}

#[test]
fn kind_strings_match_arc_kernel() {
    let kinds: Vec<&str> = all_kinds().iter().map(|c| c.kind()).collect();
    assert_eq!(kinds, vec!["axiom", "def", "thm", "opaque", "quot", "induct", "ctor", "rec"]);
}

#[test]
fn every_kind_equals_a_fresh_copy_of_itself() {
    let a = all_kinds();
    let b = all_kinds();
    for (x, y) in a.iter().zip(b.iter()) {
        assert_eq_ci(x, y);
    }
    for i in 0..a.len() {
        for j in 0..b.len() {
            if i != j {
                assert_ne_ci(&a[i], &b[j]);
            }
        }
    }
}

#[test]
fn name_and_constant_val_read_the_common_part() {
    for c in all_kinds() {
        assert!(c.name().equal(&c.constant_val().name));
    }
    let c = &all_kinds()[6];
    assert_eq!(c.name().to_string(), "I.mk");
}
