//! Tests for the signature match set and the rule engine.

use airhound::rules::{evaluate_rule, evaluate_rules, ExprNode, Rule, RuleDb, SigMatchSet};

// ── SigMatchSet ─────────────────────────────────────────────────────

#[test]
fn sigmatchset_empty_on_creation() {
    let set = SigMatchSet::new();
    assert!(set.is_empty());
    for i in 0..256u16 {
        assert!(!set.get(i), "bit {i} should be unset");
    }
}

#[test]
fn sigmatchset_set_and_get_bit_zero() {
    let mut set = SigMatchSet::new();
    set.set(0);
    assert!(set.get(0));
    assert!(!set.is_empty());
}

#[test]
fn sigmatchset_set_and_get_bit_63() {
    let mut set = SigMatchSet::new();
    set.set(63);
    assert!(set.get(63));
    assert!(!set.get(62));
    assert!(!set.get(64));
}

#[test]
fn sigmatchset_set_and_get_bit_64() {
    let mut set = SigMatchSet::new();
    set.set(64);
    assert!(set.get(64));
    assert!(!set.get(63));
    assert!(!set.get(65));
}

#[test]
fn sigmatchset_set_and_get_bit_127() {
    let mut set = SigMatchSet::new();
    set.set(127);
    assert!(set.get(127));
    assert!(!set.get(126));
    assert!(!set.get(128));
}

#[test]
fn sigmatchset_set_and_get_bit_128() {
    let mut set = SigMatchSet::new();
    set.set(128);
    assert!(set.get(128));
}

#[test]
fn sigmatchset_set_and_get_bit_255() {
    let mut set = SigMatchSet::new();
    set.set(255);
    assert!(set.get(255));
    assert!(!set.get(254));
}

#[test]
fn sigmatchset_out_of_range_ignored() {
    let mut set = SigMatchSet::new();
    set.set(256);
    set.set(1000);
    assert!(set.is_empty());
    assert!(!set.get(256));
    assert!(!set.get(1000));
}

#[test]
fn sigmatchset_multiple_bits_set() {
    let mut set = SigMatchSet::new();
    set.set(0);
    set.set(42);
    set.set(100);
    set.set(200);
    set.set(255);
    assert!(set.get(0));
    assert!(set.get(42));
    assert!(set.get(100));
    assert!(set.get(200));
    assert!(set.get(255));
    assert!(!set.get(1));
    assert!(!set.get(41));
    assert!(!set.get(99));
    assert!(!set.get(201));
    assert!(!set.get(254));
}

#[test]
fn sigmatchset_set_idempotent() {
    let mut set = SigMatchSet::new();
    set.set(10);
    set.set(10);
    set.set(10);
    assert!(set.get(10));
}

#[test]
fn sigmatchset_all_word_boundaries() {
    let mut set = SigMatchSet::new();
    for &idx in &[0u16, 63, 64, 127, 128, 191, 192, 255] {
        set.set(idx);
    }
    for &idx in &[0u16, 63, 64, 127, 128, 191, 192, 255] {
        assert!(set.get(idx), "bit {idx} should be set");
    }
    for &idx in &[1u16, 62, 65, 126, 129, 190, 193, 254] {
        assert!(!set.get(idx), "bit {idx} should NOT be set");
    }
}

// ── evaluate_rule: single Sig leaf ──────────────────────────────────

#[test]
fn eval_single_sig_match() {
    let mut matched = SigMatchSet::new();
    matched.set(5);
    let nodes = [ExprNode::Sig(5)];
    assert!(evaluate_rule(&nodes, &matched));
}

#[test]
fn eval_single_sig_no_match() {
    let matched = SigMatchSet::new();
    let nodes = [ExprNode::Sig(5)];
    assert!(!evaluate_rule(&nodes, &matched));
}

#[test]
fn eval_single_sig_wrong_index() {
    let mut matched = SigMatchSet::new();
    matched.set(3);
    let nodes = [ExprNode::Sig(5)];
    assert!(!evaluate_rule(&nodes, &matched));
}

// ── evaluate_rule: AnyOf ────────────────────────────────────────────

#[test]
fn eval_anyof_first_matches() {
    let mut matched = SigMatchSet::new();
    matched.set(0);
    let nodes = [
        ExprNode::Sig(0),
        ExprNode::Sig(1),
        ExprNode::Sig(2),
        ExprNode::AnyOf { count: 3 },
    ];
    assert!(evaluate_rule(&nodes, &matched));
}

#[test]
fn eval_anyof_last_matches() {
    let mut matched = SigMatchSet::new();
    matched.set(2);
    let nodes = [
        ExprNode::Sig(0),
        ExprNode::Sig(1),
        ExprNode::Sig(2),
        ExprNode::AnyOf { count: 3 },
    ];
    assert!(evaluate_rule(&nodes, &matched));
}

#[test]
fn eval_anyof_all_match() {
    let mut matched = SigMatchSet::new();
    matched.set(0);
    matched.set(1);
    matched.set(2);
    let nodes = [
        ExprNode::Sig(0),
        ExprNode::Sig(1),
        ExprNode::Sig(2),
        ExprNode::AnyOf { count: 3 },
    ];
    assert!(evaluate_rule(&nodes, &matched));
}

#[test]
fn eval_anyof_none_match() {
    let matched = SigMatchSet::new();
    let nodes = [
        ExprNode::Sig(0),
        ExprNode::Sig(1),
        ExprNode::Sig(2),
        ExprNode::AnyOf { count: 3 },
    ];
    assert!(!evaluate_rule(&nodes, &matched));
}

#[test]
fn eval_anyof_single_child() {
    let mut matched = SigMatchSet::new();
    matched.set(7);
    let nodes = [ExprNode::Sig(7), ExprNode::AnyOf { count: 1 }];
    assert!(evaluate_rule(&nodes, &matched));
}

// ── evaluate_rule: AllOf ────────────────────────────────────────────

#[test]
fn eval_allof_all_match() {
    let mut matched = SigMatchSet::new();
    matched.set(10);
    matched.set(11);
    matched.set(12);
    let nodes = [
        ExprNode::Sig(10),
        ExprNode::Sig(11),
        ExprNode::Sig(12),
        ExprNode::AllOf { count: 3 },
    ];
    assert!(evaluate_rule(&nodes, &matched));
}

#[test]
fn eval_allof_one_missing() {
    let mut matched = SigMatchSet::new();
    matched.set(10);
    matched.set(12);
    let nodes = [
        ExprNode::Sig(10),
        ExprNode::Sig(11),
        ExprNode::Sig(12),
        ExprNode::AllOf { count: 3 },
    ];
    assert!(!evaluate_rule(&nodes, &matched));
}

#[test]
fn eval_allof_none_match() {
    let matched = SigMatchSet::new();
    let nodes = [
        ExprNode::Sig(10),
        ExprNode::Sig(11),
        ExprNode::AllOf { count: 2 },
    ];
    assert!(!evaluate_rule(&nodes, &matched));
}

#[test]
fn eval_allof_single_child_match() {
    let mut matched = SigMatchSet::new();
    matched.set(5);
    let nodes = [ExprNode::Sig(5), ExprNode::AllOf { count: 1 }];
    assert!(evaluate_rule(&nodes, &matched));
}

#[test]
fn eval_allof_single_child_no_match() {
    let matched = SigMatchSet::new();
    let nodes = [ExprNode::Sig(5), ExprNode::AllOf { count: 1 }];
    assert!(!evaluate_rule(&nodes, &matched));
}

// ── evaluate_rule: Not ──────────────────────────────────────────────

#[test]
fn eval_not_inverts_true_to_false() {
    let mut matched = SigMatchSet::new();
    matched.set(3);
    let nodes = [ExprNode::Sig(3), ExprNode::Not];
    assert!(!evaluate_rule(&nodes, &matched));
}

#[test]
fn eval_not_inverts_false_to_true() {
    let matched = SigMatchSet::new();
    let nodes = [ExprNode::Sig(3), ExprNode::Not];
    assert!(evaluate_rule(&nodes, &matched));
}

#[test]
fn eval_double_not_identity() {
    let mut matched = SigMatchSet::new();
    matched.set(3);
    let nodes = [ExprNode::Sig(3), ExprNode::Not, ExprNode::Not];
    assert!(evaluate_rule(&nodes, &matched));
}

#[test]
fn eval_not_of_anyof() {
    let matched = SigMatchSet::new();
    let nodes = [
        ExprNode::Sig(0),
        ExprNode::Sig(1),
        ExprNode::AnyOf { count: 2 },
        ExprNode::Not,
    ];
    assert!(evaluate_rule(&nodes, &matched));
}

#[test]
fn eval_not_of_anyof_when_one_matches() {
    let mut matched = SigMatchSet::new();
    matched.set(0);
    let nodes = [
        ExprNode::Sig(0),
        ExprNode::Sig(1),
        ExprNode::AnyOf { count: 2 },
        ExprNode::Not,
    ];
    assert!(!evaluate_rule(&nodes, &matched));
}

// ── evaluate_rule: nested compositions ──────────────────────────────

#[test]
fn eval_anyof_with_nested_allof() {
    let mut matched = SigMatchSet::new();
    matched.set(1);
    matched.set(2);
    let nodes = [
        ExprNode::Sig(0),
        ExprNode::Sig(1),
        ExprNode::Sig(2),
        ExprNode::AllOf { count: 2 },
        ExprNode::AnyOf { count: 2 },
    ];
    assert!(evaluate_rule(&nodes, &matched));
}

#[test]
fn eval_anyof_with_nested_allof_only_first() {
    let mut matched = SigMatchSet::new();
    matched.set(0);
    let nodes = [
        ExprNode::Sig(0),
        ExprNode::Sig(1),
        ExprNode::Sig(2),
        ExprNode::AllOf { count: 2 },
        ExprNode::AnyOf { count: 2 },
    ];
    assert!(evaluate_rule(&nodes, &matched));
}

#[test]
fn eval_anyof_with_nested_allof_partial() {
    let mut matched = SigMatchSet::new();
    matched.set(1);
    let nodes = [
        ExprNode::Sig(0),
        ExprNode::Sig(1),
        ExprNode::Sig(2),
        ExprNode::AllOf { count: 2 },
        ExprNode::AnyOf { count: 2 },
    ];
    assert!(!evaluate_rule(&nodes, &matched));
}

#[test]
fn eval_allof_with_nested_anyof() {
    let mut matched = SigMatchSet::new();
    matched.set(1);
    matched.set(2);
    let nodes = [
        ExprNode::Sig(0),
        ExprNode::Sig(1),
        ExprNode::AnyOf { count: 2 },
        ExprNode::Sig(2),
        ExprNode::AllOf { count: 2 },
    ];
    assert!(evaluate_rule(&nodes, &matched));
}

#[test]
fn eval_allof_with_nested_anyof_missing_required() {
    let mut matched = SigMatchSet::new();
    matched.set(0);
    let nodes = [
        ExprNode::Sig(0),
        ExprNode::Sig(1),
        ExprNode::AnyOf { count: 2 },
        ExprNode::Sig(2),
        ExprNode::AllOf { count: 2 },
    ];
    assert!(!evaluate_rule(&nodes, &matched));
}

#[test]
fn eval_allof_with_not_child() {
    let mut matched = SigMatchSet::new();
    matched.set(0);
    let nodes = [
        ExprNode::Sig(0),
        ExprNode::Sig(1),
        ExprNode::Not,
        ExprNode::AllOf { count: 2 },
    ];
    assert!(evaluate_rule(&nodes, &matched));
}

#[test]
fn eval_allof_with_not_child_fails() {
    let mut matched = SigMatchSet::new();
    matched.set(0);
    matched.set(1);
    let nodes = [
        ExprNode::Sig(0),
        ExprNode::Sig(1),
        ExprNode::Not,
        ExprNode::AllOf { count: 2 },
    ];
    assert!(!evaluate_rule(&nodes, &matched));
}

#[test]
fn eval_deeply_nested() {
    let mut matched = SigMatchSet::new();
    matched.set(0);
    let nodes = [
        ExprNode::Sig(0),
        ExprNode::Sig(1),
        ExprNode::Not,
        ExprNode::AllOf { count: 2 },
        ExprNode::Sig(2),
        ExprNode::Sig(3),
        ExprNode::AllOf { count: 2 },
        ExprNode::AnyOf { count: 2 },
    ];
    assert!(evaluate_rule(&nodes, &matched));
}

#[test]
fn eval_deeply_nested_second_branch() {
    let mut matched = SigMatchSet::new();
    matched.set(2);
    matched.set(3);
    let nodes = [
        ExprNode::Sig(0),
        ExprNode::Sig(1),
        ExprNode::Not,
        ExprNode::AllOf { count: 2 },
        ExprNode::Sig(2),
        ExprNode::Sig(3),
        ExprNode::AllOf { count: 2 },
        ExprNode::AnyOf { count: 2 },
    ];
    assert!(evaluate_rule(&nodes, &matched));
}

#[test]
fn eval_deeply_nested_neither_branch() {
    let mut matched = SigMatchSet::new();
    matched.set(0);
    matched.set(1);
    matched.set(2);
    let nodes = [
        ExprNode::Sig(0),
        ExprNode::Sig(1),
        ExprNode::Not,
        ExprNode::AllOf { count: 2 },
        ExprNode::Sig(2),
        ExprNode::Sig(3),
        ExprNode::AllOf { count: 2 },
        ExprNode::AnyOf { count: 2 },
    ];
    assert!(!evaluate_rule(&nodes, &matched));
}

// ── evaluate_rule: edge cases ───────────────────────────────────────

#[test]
fn eval_empty_expression_returns_false() {
    let matched = SigMatchSet::new();
    assert!(!evaluate_rule(&[], &matched));
}

#[test]
fn eval_anyof_count_zero_leaves_stack_unchanged() {
    let matched = SigMatchSet::new();
    let nodes = [ExprNode::AnyOf { count: 0 }];
    assert!(!evaluate_rule(&nodes, &matched));
}

#[test]
fn eval_allof_count_zero_produces_true() {
    let matched = SigMatchSet::new();
    let nodes = [ExprNode::AllOf { count: 0 }];
    assert!(evaluate_rule(&nodes, &matched));
}

#[test]
fn eval_stack_underflow_not_returns_false() {
    let matched = SigMatchSet::new();
    let nodes = [ExprNode::Not];
    assert!(!evaluate_rule(&nodes, &matched));
}

#[test]
fn eval_stack_underflow_anyof_returns_false() {
    let matched = SigMatchSet::new();
    let nodes = [ExprNode::Sig(0), ExprNode::AnyOf { count: 3 }];
    assert!(!evaluate_rule(&nodes, &matched));
}

#[test]
fn eval_multiple_values_on_stack_returns_false() {
    let mut matched = SigMatchSet::new();
    matched.set(0);
    matched.set(1);
    let nodes = [ExprNode::Sig(0), ExprNode::Sig(1)];
    assert!(!evaluate_rule(&nodes, &matched));
}

#[test]
fn eval_stack_overflow_returns_false() {
    // Seventeen pushed leaves overflow the sixteen-deep stack.
    let mut matched = SigMatchSet::new();
    matched.set(0);
    let mut nodes = vec![ExprNode::Sig(0); 17];
    nodes.push(ExprNode::AnyOf { count: 17 });
    assert!(!evaluate_rule(&nodes, &matched));
}

// ── evaluate_rule: real-world rule patterns ─────────────────────────

#[test]
fn eval_flock_safety_pattern() {
    let nodes = [
        ExprNode::Sig(0),
        ExprNode::Sig(1),
        ExprNode::Sig(2),
        ExprNode::Sig(3),
        ExprNode::Sig(4),
        ExprNode::Sig(5),
        ExprNode::Sig(6),
        ExprNode::Sig(7),
        ExprNode::Sig(8),
        ExprNode::Sig(6),
        ExprNode::AllOf { count: 2 },
        ExprNode::AnyOf { count: 9 },
    ];

    let mut m = SigMatchSet::new();
    m.set(0);
    assert!(evaluate_rule(&nodes, &m));

    let mut m = SigMatchSet::new();
    m.set(8);
    m.set(6);
    assert!(evaluate_rule(&nodes, &m));

    let mut m = SigMatchSet::new();
    m.set(8);
    assert!(!evaluate_rule(&nodes, &m));

    let m = SigMatchSet::new();
    assert!(!evaluate_rule(&nodes, &m));
}

#[test]
fn eval_simple_anyof_like_raven() {
    let nodes = [
        ExprNode::Sig(20),
        ExprNode::Sig(21),
        ExprNode::Sig(22),
        ExprNode::Sig(23),
        ExprNode::Sig(24),
        ExprNode::AnyOf { count: 5 },
    ];

    let mut m = SigMatchSet::new();
    m.set(22);
    assert!(evaluate_rule(&nodes, &m));

    let m = SigMatchSet::new();
    assert!(!evaluate_rule(&nodes, &m));
}

#[test]
fn eval_single_sig_like_airtag() {
    let nodes = [ExprNode::Sig(100)];

    let mut m = SigMatchSet::new();
    m.set(100);
    assert!(evaluate_rule(&nodes, &m));

    let m = SigMatchSet::new();
    assert!(!evaluate_rule(&nodes, &m));
}

#[test]
fn eval_two_branch_anyof_like_flipper() {
    let nodes = [
        ExprNode::Sig(50),
        ExprNode::Sig(51),
        ExprNode::AnyOf { count: 2 },
    ];

    let mut m = SigMatchSet::new();
    m.set(50);
    assert!(evaluate_rule(&nodes, &m));

    let mut m = SigMatchSet::new();
    m.set(51);
    assert!(evaluate_rule(&nodes, &m));

    let m = SigMatchSet::new();
    assert!(!evaluate_rule(&nodes, &m));
}

// ── evaluate_rules ──────────────────────────────────────────────────

#[test]
fn evaluate_rules_no_match() {
    let db = RuleDb {
        nodes: vec![
            ExprNode::Sig(0),
            ExprNode::Sig(1),
            ExprNode::AnyOf { count: 2 },
        ],
        rules: vec![Rule {
            name: "Rule A",
            expr_start: 0,
            expr_len: 3,
        }],
    };

    let matched = SigMatchSet::new();
    let result = evaluate_rules(&db, &matched);
    assert!(result.is_empty());
}

#[test]
fn evaluate_rules_one_of_two_matches() {
    let db = RuleDb {
        nodes: vec![
            ExprNode::Sig(0),
            ExprNode::Sig(1),
            ExprNode::AnyOf { count: 2 },
            ExprNode::Sig(2),
        ],
        rules: vec![
            Rule {
                name: "Rule A",
                expr_start: 0,
                expr_len: 3,
            },
            Rule {
                name: "Rule B",
                expr_start: 3,
                expr_len: 1,
            },
        ],
    };

    let mut matched = SigMatchSet::new();
    matched.set(0);
    let result = evaluate_rules(&db, &matched);
    assert_eq!(result.len(), 1);
    assert_eq!(result[0], 0);
    assert_eq!(db.rules[result[0] as usize].name, "Rule A");
}

#[test]
fn evaluate_rules_both_match() {
    let db = RuleDb {
        nodes: vec![
            ExprNode::Sig(0),
            ExprNode::Sig(1),
            ExprNode::AnyOf { count: 2 },
            ExprNode::Sig(2),
        ],
        rules: vec![
            Rule {
                name: "Rule A",
                expr_start: 0,
                expr_len: 3,
            },
            Rule {
                name: "Rule B",
                expr_start: 3,
                expr_len: 1,
            },
        ],
    };

    let mut matched = SigMatchSet::new();
    matched.set(0);
    matched.set(2);
    let result = evaluate_rules(&db, &matched);
    assert_eq!(result.len(), 2);
    assert_eq!(db.rules[result[0] as usize].name, "Rule A");
    assert_eq!(db.rules[result[1] as usize].name, "Rule B");
}

#[test]
fn evaluate_rules_max_four_returned() {
    let db = RuleDb {
        nodes: vec![
            ExprNode::Sig(0),
            ExprNode::Sig(0),
            ExprNode::Sig(0),
            ExprNode::Sig(0),
            ExprNode::Sig(0),
        ],
        rules: vec![
            Rule {
                name: "R0",
                expr_start: 0,
                expr_len: 1,
            },
            Rule {
                name: "R1",
                expr_start: 1,
                expr_len: 1,
            },
            Rule {
                name: "R2",
                expr_start: 2,
                expr_len: 1,
            },
            Rule {
                name: "R3",
                expr_start: 3,
                expr_len: 1,
            },
            Rule {
                name: "R4",
                expr_start: 4,
                expr_len: 1,
            },
        ],
    };

    let mut matched = SigMatchSet::new();
    matched.set(0);
    let result = evaluate_rules(&db, &matched);
    assert_eq!(result.len(), 4);
}

#[test]
fn evaluate_rules_invalid_range_skipped() {
    let db = RuleDb {
        nodes: vec![ExprNode::Sig(0)],
        rules: vec![Rule {
            name: "Bad rule",
            expr_start: 0,
            expr_len: 10,
        }],
    };

    let mut matched = SigMatchSet::new();
    matched.set(0);
    let result = evaluate_rules(&db, &matched);
    assert!(result.is_empty());
}

// ── Algebraic laws on concrete values ───────────────────────────────

#[test]
fn eval_anyof_is_commutative() {
    let orders = [
        [
            ExprNode::Sig(0),
            ExprNode::Sig(1),
            ExprNode::AnyOf { count: 2 },
        ],
        [
            ExprNode::Sig(1),
            ExprNode::Sig(0),
            ExprNode::AnyOf { count: 2 },
        ],
    ];

    for sig_to_set in [None, Some(0u16), Some(1), Some(99)] {
        let mut m = SigMatchSet::new();
        if let Some(s) = sig_to_set {
            m.set(s);
        }
        let r0 = evaluate_rule(&orders[0], &m);
        let r1 = evaluate_rule(&orders[1], &m);
        assert_eq!(r0, r1, "AnyOf should be commutative for sig={sig_to_set:?}");
    }
}

#[test]
fn eval_allof_is_commutative() {
    let orders = [
        [
            ExprNode::Sig(0),
            ExprNode::Sig(1),
            ExprNode::AllOf { count: 2 },
        ],
        [
            ExprNode::Sig(1),
            ExprNode::Sig(0),
            ExprNode::AllOf { count: 2 },
        ],
    ];

    for sigs in [vec![], vec![0], vec![1], vec![0, 1]] {
        let mut m = SigMatchSet::new();
        for s in &sigs {
            m.set(*s);
        }
        let r0 = evaluate_rule(&orders[0], &m);
        let r1 = evaluate_rule(&orders[1], &m);
        assert_eq!(r0, r1, "AllOf should be commutative for sigs={sigs:?}");
    }
}

#[test]
fn eval_de_morgans_law_not_anyof() {
    let lhs = [
        ExprNode::Sig(0),
        ExprNode::Sig(1),
        ExprNode::AnyOf { count: 2 },
        ExprNode::Not,
    ];
    let rhs = [
        ExprNode::Sig(0),
        ExprNode::Not,
        ExprNode::Sig(1),
        ExprNode::Not,
        ExprNode::AllOf { count: 2 },
    ];

    for sigs in [vec![], vec![0], vec![1], vec![0, 1]] {
        let mut m = SigMatchSet::new();
        for s in &sigs {
            m.set(*s);
        }
        assert_eq!(
            evaluate_rule(&lhs, &m),
            evaluate_rule(&rhs, &m),
            "De Morgan's law violated for sigs={sigs:?}"
        );
    }
}

#[test]
fn eval_de_morgans_law_not_allof() {
    let lhs = [
        ExprNode::Sig(0),
        ExprNode::Sig(1),
        ExprNode::AllOf { count: 2 },
        ExprNode::Not,
    ];
    let rhs = [
        ExprNode::Sig(0),
        ExprNode::Not,
        ExprNode::Sig(1),
        ExprNode::Not,
        ExprNode::AnyOf { count: 2 },
    ];

    for sigs in [vec![], vec![0], vec![1], vec![0, 1]] {
        let mut m = SigMatchSet::new();
        for s in &sigs {
            m.set(*s);
        }
        assert_eq!(
            evaluate_rule(&lhs, &m),
            evaluate_rule(&rhs, &m),
            "De Morgan's law violated for sigs={sigs:?}"
        );
    }
}
