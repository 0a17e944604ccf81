use dropmodel::dangling::{simulate_dangling, DerefFlag, FlagKind};
use dropmodel::model::{is_well_formed, Binding, Field, Program, Value};
use dropmodel::order::{compute_destruction_order, death_sequence, Event};
use dropmodel::scenarios;
use dropmodel::validity::{check_validity, Verdict};

fn leaf(custom_dtor: bool) -> Value {
    Value {
        custom_dtor,
        fields: vec![],
    }
}

fn refer(target: usize, opt_out: bool, dtor_reads: bool) -> Field {
    Field {
        target,
        owned: false,
        opt_out,
        dtor_reads,
    }
}

fn own(target: usize) -> Field {
    Field {
        target,
        owned: true,
        opt_out: false,
        dtor_reads: false,
    }
}

fn bindings_in_order(roots: &[usize]) -> Vec<Binding> {
    roots
        .iter()
        .enumerate()
        .map(|(i, &root)| Binding {
            root,
            init_order: i,
        })
        .collect()
}

#[test]
fn reverse_declaration_order_three_bindings() {
    let p = Program {
        values: vec![leaf(true), leaf(true), leaf(true)],
        bindings: bindings_in_order(&[0, 1, 2]),
        explicit_drops: vec![],
    };
    assert!(is_well_formed(&p));
    let trace = compute_destruction_order(&p);
    assert_eq!(
        trace,
        vec![
            Event::DtorStart { value: 2 },
            Event::DtorStart { value: 1 },
            Event::DtorStart { value: 0 },
        ]
    );
}

#[test]
fn declaration_not_initialization_governs_order() {
    let p = scenarios::drop_order();
    assert!(is_well_formed(&p));
    // The first-declared binding was initialized second; destruction still
    // follows declaration order, second-declared value first.
    assert_eq!(p.bindings[0].init_order, 1);
    assert_eq!(p.bindings[1].init_order, 0);
    let trace = compute_destruction_order(&p);
    assert_eq!(
        trace,
        vec![
            Event::DtorStart { value: 1 },
            Event::DtorStart { value: 0 },
        ]
    );
    // Swapping the recorded initialization orders changes nothing.
    let mut q = p.clone();
    q.bindings[0].init_order = 0;
    q.bindings[1].init_order = 1;
    assert_eq!(compute_destruction_order(&q), trace);
}

#[test]
fn custom_destructor_runs_before_glue_in_field_order() {
    let p = scenarios::drop_glue1();
    let trace = compute_destruction_order(&p);
    assert_eq!(
        trace,
        vec![
            Event::DtorStart { value: 0 },
            Event::GlueField { owner: 0, field: 0 },
            Event::DtorStart { value: 1 },
            Event::GlueField { owner: 0, field: 1 },
            Event::DtorStart { value: 2 },
        ]
    );
}

#[test]
fn trivial_drop_emits_glue_but_no_dtor_start() {
    let p = Program {
        values: vec![
            Value {
                custom_dtor: false,
                fields: vec![own(1), own(2)],
            },
            leaf(true),
            leaf(true),
        ],
        bindings: bindings_in_order(&[0]),
        explicit_drops: vec![],
    };
    assert!(is_well_formed(&p));
    let trace = compute_destruction_order(&p);
    assert_eq!(
        trace,
        vec![
            Event::GlueField { owner: 0, field: 0 },
            Event::DtorStart { value: 1 },
            Event::GlueField { owner: 0, field: 1 },
            Event::DtorStart { value: 2 },
        ]
    );
}

#[test]
fn value_without_fields_or_dtor_is_silent() {
    let p = Program {
        values: vec![leaf(false)],
        bindings: bindings_in_order(&[0]),
        explicit_drops: vec![],
    };
    assert!(is_well_formed(&p));
    assert_eq!(compute_destruction_order(&p), vec![]);
}

#[test]
fn empty_scope_has_empty_trace() {
    let p = Program {
        values: vec![],
        bindings: vec![],
        explicit_drops: vec![],
    };
    assert!(is_well_formed(&p));
    assert_eq!(compute_destruction_order(&p), vec![]);
    let (deaths, mid) = death_sequence(&p);
    assert_eq!(deaths, vec![]);
    assert_eq!(mid, 0);
}

#[test]
fn glue_skips_reference_fields() {
    let p = scenarios::drop_glue2();
    let trace = compute_destruction_order(&p);
    assert_eq!(
        trace,
        vec![
            Event::DtorStart { value: 1 },
            Event::GlueField { owner: 1, field: 1 },
            Event::DtorStart { value: 2 },
            Event::DtorStart { value: 0 },
        ]
    );
    assert_eq!(check_validity(&p), Verdict::Accept);
}

#[test]
fn glue_recurses_depth_first() {
    let p = scenarios::drop_glue3();
    let trace = compute_destruction_order(&p);
    assert_eq!(
        trace,
        vec![
            Event::DtorStart { value: 0 },
            Event::GlueField { owner: 0, field: 0 },
            Event::DtorStart { value: 1 },
            Event::GlueField { owner: 1, field: 0 },
            Event::DtorStart { value: 2 },
            Event::GlueField { owner: 1, field: 1 },
            Event::DtorStart { value: 3 },
        ]
    );
}

#[test]
fn death_sequence_orders_explicit_before_scope_exit() {
    let p = scenarios::phantom1();
    let (deaths, mid) = death_sequence(&p);
    assert_eq!(deaths, vec![1, 0]);
    assert_eq!(mid, 1);
}

#[test]
fn trivial_drop_accepts_dangling_reference() {
    let p = scenarios::may_dangle1();
    assert!(is_well_formed(&p));
    assert_eq!(check_validity(&p), Verdict::Accept);
}

#[test]
fn custom_dtor_rejects_dangling_reference() {
    let p = scenarios::may_dangle2();
    assert_eq!(
        check_validity(&p),
        Verdict::Reject {
            dependent: 0,
            owner: 0,
            field: 0,
        }
    );
}

#[test]
fn same_shape_accepted_when_owner_has_no_dtor() {
    // The configuration of may_dangle2, except that the owning value has no
    // custom destructor: equally dangling in memory terms, yet accepted.
    let mut p = scenarios::may_dangle2();
    p.values[0].custom_dtor = false;
    assert!(is_well_formed(&p));
    assert_eq!(check_validity(&p), Verdict::Accept);
}

#[test]
fn opt_out_suppresses_check_for_scope_exit() {
    let p = scenarios::may_dangle3();
    assert_eq!(check_validity(&p), Verdict::Accept);
    assert_eq!(simulate_dangling(&p), vec![]);
}

#[test]
fn opt_out_on_generic_behaves_the_same() {
    let p = scenarios::may_dangle4();
    assert_eq!(check_validity(&p), Verdict::Accept);
}

#[test]
fn opted_out_read_is_unsound_if_executed() {
    let p = scenarios::may_dangle5();
    assert_eq!(check_validity(&p), Verdict::Accept);
    assert_eq!(
        simulate_dangling(&p),
        vec![DerefFlag {
            value: 0,
            field: 0,
            kind: FlagKind::UnsoundIfExecuted,
        }]
    );
}

#[test]
fn explicit_destruction_ignores_opt_out() {
    let p = scenarios::may_dangle6();
    assert_eq!(
        check_validity(&p),
        Verdict::Reject {
            dependent: 0,
            owner: 0,
            field: 0,
        }
    );
}

#[test]
fn opted_out_owned_field_still_gets_glue() {
    let p = scenarios::may_dangle7();
    let trace = compute_destruction_order(&p);
    assert_eq!(
        trace,
        vec![
            Event::DtorStart { value: 0 },
            Event::GlueField { owner: 0, field: 0 },
            Event::DtorStart { value: 1 },
        ]
    );
    assert_eq!(check_validity(&p), Verdict::Accept);
}

#[test]
fn slot_freeing_borrowed_data_is_sound() {
    let p = scenarios::phantom1();
    assert_eq!(check_validity(&p), Verdict::Accept);
    assert_eq!(simulate_dangling(&p), vec![]);
}

#[test]
fn unmarked_slot_is_unsound_not_rejected() {
    let p = scenarios::phantom2();
    assert_eq!(check_validity(&p), Verdict::Accept);
    assert_eq!(
        simulate_dangling(&p),
        vec![DerefFlag {
            value: 0,
            field: 0,
            kind: FlagKind::UnsoundIfExecuted,
        }]
    );
}

#[test]
fn marked_slot_restores_dependency_and_rejects() {
    let p = scenarios::phantom3();
    assert_eq!(
        check_validity(&p),
        Verdict::Reject {
            dependent: 1,
            owner: 1,
            field: 0,
        }
    );
}

#[test]
fn checked_read_of_destroyed_referent_is_rejected_by_model() {
    // Like may_dangle2, but the destructor really reads the field: the
    // simulation flags the invocation as rejected by the model, matching the
    // validity verdict.
    let p = Program {
        values: vec![
            Value {
                custom_dtor: true,
                fields: vec![refer(1, false, true)],
            },
            leaf(false),
        ],
        bindings: bindings_in_order(&[0, 1]),
        explicit_drops: vec![],
    };
    assert!(is_well_formed(&p));
    assert!(matches!(check_validity(&p), Verdict::Reject { .. }));
    assert_eq!(
        simulate_dangling(&p),
        vec![DerefFlag {
            value: 0,
            field: 0,
            kind: FlagKind::RejectedByModel,
        }]
    );
}

#[test]
fn valid_read_earns_no_flag() {
    // The referent is declared after its reader, so it is still alive when
    // the reader's destructor runs: no flag of either kind.
    let p = Program {
        values: vec![leaf(false), Value {
            custom_dtor: true,
            fields: vec![refer(0, false, true)],
        }],
        bindings: bindings_in_order(&[0, 1]),
        explicit_drops: vec![],
    };
    assert!(is_well_formed(&p));
    assert_eq!(check_validity(&p), Verdict::Accept);
    assert_eq!(simulate_dangling(&p), vec![]);
}

#[test]
fn well_formedness_rejects_bad_shapes() {
    // Owned edge pointing backwards (a cycle in disguise).
    let cycle = Program {
        values: vec![Value {
            custom_dtor: false,
            fields: vec![own(0)],
        }],
        bindings: vec![],
        explicit_drops: vec![],
    };
    assert!(!is_well_formed(&cycle));

    // Field target out of bounds.
    let oob = Program {
        values: vec![Value {
            custom_dtor: false,
            fields: vec![refer(7, false, false)],
        }],
        bindings: vec![],
        explicit_drops: vec![],
    };
    assert!(!is_well_formed(&oob));

    // Two bindings naming the same root.
    let dup_root = Program {
        values: vec![leaf(false)],
        bindings: bindings_in_order(&[0, 0]),
        explicit_drops: vec![],
    };
    assert!(!is_well_formed(&dup_root));

    // The same value explicitly destroyed twice.
    let dup_drop = Program {
        values: vec![leaf(false)],
        bindings: bindings_in_order(&[0]),
        explicit_drops: vec![0, 0],
    };
    assert!(!is_well_formed(&dup_drop));

    // A value owned twice.
    let shared = Program {
        values: vec![
            Value {
                custom_dtor: false,
                fields: vec![own(2)],
            },
            Value {
                custom_dtor: false,
                fields: vec![own(2)],
            },
            leaf(false),
        ],
        bindings: bindings_in_order(&[0, 1]),
        explicit_drops: vec![],
    };
    assert!(!is_well_formed(&shared));

    // A binding root that is also owned by another value.
    let owned_root = Program {
        values: vec![
            Value {
                custom_dtor: false,
                fields: vec![own(1)],
            },
            leaf(false),
        ],
        bindings: bindings_in_order(&[0, 1]),
        explicit_drops: vec![],
    };
    assert!(!is_well_formed(&owned_root));
}

#[test]
fn scenarios_are_well_formed() {
    assert!(is_well_formed(&scenarios::drop_order()));
    assert!(is_well_formed(&scenarios::drop_glue1()));
    assert!(is_well_formed(&scenarios::drop_glue2()));
    assert!(is_well_formed(&scenarios::drop_glue3()));
    assert!(is_well_formed(&scenarios::may_dangle1()));
    assert!(is_well_formed(&scenarios::may_dangle2()));
    assert!(is_well_formed(&scenarios::may_dangle3()));
    assert!(is_well_formed(&scenarios::may_dangle4()));
    assert!(is_well_formed(&scenarios::may_dangle5()));
    assert!(is_well_formed(&scenarios::may_dangle6()));
    assert!(is_well_formed(&scenarios::may_dangle7()));
    assert!(is_well_formed(&scenarios::phantom1()));
    assert!(is_well_formed(&scenarios::phantom2()));
    assert!(is_well_formed(&scenarios::phantom3()));
}

#[test]
fn explicit_drop_skips_scope_exit_destruction() {
    // A binding destroyed explicitly is not destroyed again at scope exit.
    let p = Program {
        values: vec![leaf(true), leaf(true)],
        bindings: bindings_in_order(&[0, 1]),
        explicit_drops: vec![0],
    };
    assert!(is_well_formed(&p));
    let trace = compute_destruction_order(&p);
    assert_eq!(
        trace,
        vec![
            Event::DtorStart { value: 0 },
            Event::DtorStart { value: 1 },
        ]
    );
    let (deaths, mid) = death_sequence(&p);
    assert_eq!(deaths, vec![0, 1]);
    assert_eq!(mid, 1);
}
