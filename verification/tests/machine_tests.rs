use smlang::ast::ActionStmt;
use smlang::ast::EventPattern;
use smlang::ast::Expr;
use smlang::ast::GuardExpr;
use smlang::ast::Operand;
use smlang::ast::StateDecl;
use smlang::ast::StateMachine;
use smlang::ast::StateTransition;
use smlang::machine::EventValue;
use smlang::machine::Machine;
use smlang::machine::StateValue;
use smlang::model::ParsedStateMachine;

fn rule(
    start: bool,
    in_state: Option<(&str, bool)>,
    event: &str,
    event_pattern: Option<EventPattern>,
    guard: Option<GuardExpr>,
    actions: Option<ActionStmt>,
    out_state: &str,
    out_state_data_expr: Option<Expr>,
) -> StateTransition {
    StateTransition {
        start,
        in_state: in_state.map(|(n, p)| StateDecl { name: n.to_string(), has_payload: p }),
        event: event.to_string(),
        event_pattern,
        guard,
        actions,
        out_state: out_state.to_string(),
        out_state_data_expr,
    }
}

fn simple(start: bool, in_state: &str, event: &str, out_state: &str) -> StateTransition {
    rule(start, Some((in_state, false)), event, None, None, None, out_state, None)
}

fn ev(name: &str) -> EventValue {
    EventValue { name: name.to_string(), payload: None }
}

fn ev_with(name: &str, payload: u64) -> EventValue {
    EventValue { name: name.to_string(), payload: Some(payload) }
}

fn build(rules: Vec<StateTransition>, wildcards: Vec<StateTransition>) -> ParsedStateMachine {
    let mut sm = StateMachine::new();
    for r in rules {
        sm.add_transition(r);
    }
    for w in wildcards {
        sm.add_wildcard(w);
    }
    ParsedStateMachine::new(sm).expect("model should build")
}

#[test]
fn linear_machine_follows_the_declared_path() {
    let m = build(
        vec![simple(true, "S1", "Ev1", "S2"), simple(false, "S2", "Ev2", "S3")],
        vec![],
    );
    let mut machine = Machine::new(m, 0);
    assert_eq!(machine.state().name, "S1");
    assert_eq!(machine.state().payload, None);

    let r = machine.process_event(&ev("Ev1"));
    assert_eq!(r, Some(StateValue { name: "S2".to_string(), payload: None }));

    let r = machine.process_event(&ev("Ev2"));
    assert_eq!(r, Some(StateValue { name: "S3".to_string(), payload: None }));

    let r = machine.process_event(&ev("Ev1"));
    assert_eq!(r, None);
    assert_eq!(machine.state().name, "S3");
}

#[test]
fn looping_machine_cycles_between_states() {
    let m = build(
        vec![
            simple(true, "S1", "Ev1", "S2"),
            simple(false, "S2", "Ev2", "S3"),
            simple(false, "S3", "Ev3", "S2"),
        ],
        vec![],
    );
    let mut machine = Machine::new(m, 0);
    let seq = ["Ev1", "Ev2", "Ev3", "Ev2", "Ev3"];
    let expected = ["S2", "S3", "S2", "S3", "S2"];
    for (e, s) in seq.iter().zip(expected.iter()) {
        let r = machine.process_event(&ev(*e)).expect("transition expected");
        assert_eq!(r.name, *s);
    }
    let r = machine.process_event(&ev("Ev1"));
    assert_eq!(r, None);
    assert_eq!(machine.state().name, "S2");
}

#[test]
fn failing_guard_leaves_the_machine_stuck() {
    let m = build(
        vec![
            rule(
                true,
                Some(("S1", false)),
                "Ev1",
                None,
                Some(GuardExpr::Lit(true)),
                None,
                "S2",
                None,
            ),
            rule(
                false,
                Some(("S2", false)),
                "Ev2",
                None,
                Some(GuardExpr::Lit(false)),
                None,
                "S3",
                None,
            ),
        ],
        vec![],
    );
    let mut machine = Machine::new(m, 0);
    let r = machine.process_event(&ev("Ev1"));
    assert_eq!(r.unwrap().name, "S2");
    assert_eq!(machine.process_event(&ev("Ev2")), None);
    assert_eq!(machine.state().name, "S2");
    assert_eq!(machine.process_event(&ev("Ev2")), None);
    assert_eq!(machine.state().name, "S2");
}

#[test]
fn payload_expression_fills_the_destination_state() {
    let m = build(
        vec![rule(
            true,
            Some(("S1", false)),
            "Ev1",
            None,
            None,
            None,
            "S2",
            Some(Expr::Operand(Operand::Lit(42))),
        )],
        vec![],
    );
    let mut machine = Machine::new(m, 0);
    let r = machine.process_event(&ev("Ev1"));
    assert_eq!(r, Some(StateValue { name: "S2".to_string(), payload: Some(42) }));
    assert_eq!(machine.state().payload, Some(42));
}

#[test]
fn wildcard_rule_applies_from_every_state() {
    let m = build(
        vec![simple(true, "S1", "Ev1", "S2"), simple(false, "S2", "Ev2", "S1")],
        vec![simple(false, "S1", "EvX", "S4")],
    );
    // From the starting state.
    let mut machine = Machine::new(m, 0);
    assert_eq!(machine.process_event(&ev("EvX")).unwrap().name, "S4");

    // From a state that declares no explicit rule for EvX.
    let m = build(
        vec![simple(true, "S1", "Ev1", "S2"), simple(false, "S2", "Ev2", "S1")],
        vec![simple(false, "S1", "EvX", "S4")],
    );
    let s2 = StateValue { name: "S2".to_string(), payload: None };
    let mut machine = Machine::new_with_state(m, 0, s2);
    assert_eq!(machine.process_event(&ev("EvX")).unwrap().name, "S4");

    // Even from the wildcard's own destination.
    let m = build(
        vec![simple(true, "S1", "Ev1", "S2"), simple(false, "S2", "Ev2", "S1")],
        vec![simple(false, "S1", "EvX", "S4")],
    );
    let s4 = StateValue { name: "S4".to_string(), payload: None };
    let mut machine = Machine::new_with_state(m, 0, s4);
    assert_eq!(machine.process_event(&ev("EvX")).unwrap().name, "S4");
}

#[test]
fn explicit_rules_win_over_wildcards() {
    let m = build(
        vec![simple(true, "S1", "Ev1", "S2")],
        vec![simple(false, "S1", "Ev1", "S4")],
    );
    let mut machine = Machine::new(m, 0);
    assert_eq!(machine.process_event(&ev("Ev1")).unwrap().name, "S2");
}

#[test]
fn first_fully_matching_rule_wins_across_failed_guards() {
    // The first rule's pattern matches but its guard fails; the scan
    // continues to the later rule instead of aborting the dispatch.
    let m = build(
        vec![
            rule(
                true,
                Some(("S1", false)),
                "Ev1",
                None,
                Some(GuardExpr::Lit(false)),
                None,
                "S2",
                None,
            ),
            rule(
                false,
                Some(("S1", false)),
                "Ev1",
                None,
                Some(GuardExpr::Lit(true)),
                None,
                "S3",
                None,
            ),
        ],
        vec![],
    );
    let mut machine = Machine::new(m, 0);
    assert_eq!(machine.process_event(&ev("Ev1")).unwrap().name, "S3");
}

#[test]
fn event_pattern_literal_matches_only_that_payload() {
    let m = build(
        vec![rule(
            true,
            Some(("S1", false)),
            "Ev1",
            Some(EventPattern::Lit(5)),
            None,
            None,
            "S2",
            None,
        )],
        vec![],
    );
    let mut machine = Machine::new(m, 0);
    assert_eq!(machine.process_event(&ev_with("Ev1", 6)), None);
    assert_eq!(machine.process_event(&ev("Ev1")), None);
    assert_eq!(machine.process_event(&ev_with("Ev1", 5)).unwrap().name, "S2");
}

#[test]
fn binding_pattern_requires_a_payload() {
    let m = build(
        vec![rule(
            true,
            Some(("S1", false)),
            "Ev1",
            Some(EventPattern::Any),
            None,
            None,
            "S2",
            None,
        )],
        vec![],
    );
    let mut machine = Machine::new(m, 0);
    assert_eq!(machine.process_event(&ev("Ev1")), None);
    assert_eq!(machine.process_event(&ev_with("Ev1", 9)).unwrap().name, "S2");
}

#[test]
fn action_updates_the_context() {
    let m = build(
        vec![rule(
            true,
            Some(("S1", false)),
            "Ev1",
            None,
            None,
            Some(ActionStmt { expr: Expr::Add(Operand::Ctx, Operand::Lit(1)) }),
            "S1",
            None,
        )],
        vec![],
    );
    let mut machine = Machine::new(m, 0);
    machine.process_event(&ev("Ev1")).unwrap();
    machine.process_event(&ev("Ev1")).unwrap();
    assert_eq!(*machine.context(), 2);
}

#[test]
fn guard_reads_context_and_event_payload() {
    let m = build(
        vec![rule(
            true,
            Some(("S1", false)),
            "Ev1",
            Some(EventPattern::Any),
            Some(GuardExpr::Cmp(smlang::ast::CmpOp::Le, Operand::EventPayload, Operand::Ctx)),
            None,
            "S2",
            None,
        )],
        vec![],
    );
    let mut machine = Machine::new(m, 10);
    assert_eq!(machine.process_event(&ev_with("Ev1", 11)), None);
    assert_eq!(machine.process_event(&ev_with("Ev1", 10)).unwrap().name, "S2");
}

#[test]
fn payload_expression_reads_old_state_and_event() {
    // S1 carries a payload; the destination payload is state + event.
    let m = build(
        vec![rule(
            true,
            Some(("S1", true)),
            "Ev1",
            Some(EventPattern::Any),
            None,
            None,
            "S2",
            Some(Expr::Add(Operand::StatePayload, Operand::EventPayload)),
        )],
        vec![],
    );
    let s1 = StateValue { name: "S1".to_string(), payload: Some(30) };
    let mut machine = Machine::new_with_state(m, 0, s1);
    let r = machine.process_event(&ev_with("Ev1", 12)).unwrap();
    assert_eq!(r.payload, Some(42));
}

#[test]
fn payload_carrying_start_state_defaults_to_zero() {
    let m = build(
        vec![rule(
            true,
            Some(("S1", true)),
            "Ev1",
            None,
            None,
            None,
            "S2",
            Some(Expr::Operand(Operand::StatePayload)),
        )],
        vec![],
    );
    let machine = Machine::new(m, 0);
    assert_eq!(machine.state().name, "S1");
    assert_eq!(machine.state().payload, Some(0));
}

#[test]
fn no_match_changes_nothing_and_repeats_identically() {
    let m = build(vec![simple(true, "S1", "Ev1", "S2")], vec![]);
    let mut machine = Machine::new(m, 7);
    let first = machine.process_event(&ev("EvZ"));
    let state_after = machine.state().name.clone();
    let ctx_after = *machine.context();
    let second = machine.process_event(&ev("EvZ"));
    assert_eq!(first, None);
    assert_eq!(second, None);
    assert_eq!(machine.state().name, state_after);
    assert_eq!(*machine.context(), ctx_after);
}

#[test]
fn context_mut_gives_write_access() {
    let m = build(vec![simple(true, "S1", "Ev1", "S2")], vec![]);
    let mut machine = Machine::new(m, 0);
    *machine.context_mut() = 99;
    assert_eq!(*machine.context(), 99);
}

#[test]
fn unknown_resumed_state_never_matches() {
    let m = build(vec![simple(true, "S1", "Ev1", "S2")], vec![]);
    let odd = StateValue { name: "Nowhere".to_string(), payload: None };
    let mut machine = Machine::new_with_state(m, 0, odd);
    assert_eq!(machine.process_event(&ev("Ev1")), None);
    assert_eq!(machine.state().name, "Nowhere");
}

#[test]
fn wrapping_addition_in_expressions() {
    let m = build(
        vec![rule(
            true,
            Some(("S1", false)),
            "Ev1",
            None,
            None,
            Some(ActionStmt { expr: Expr::Add(Operand::Ctx, Operand::Lit(1)) }),
            "S1",
            None,
        )],
        vec![],
    );
    let mut machine = Machine::new(m, u64::MAX);
    machine.process_event(&ev("Ev1")).unwrap();
    assert_eq!(*machine.context(), 0);
}

#[test]
fn action_runs_before_the_payload_expression() {
    // The destination payload reads the context after the action.
    let m = build(
        vec![rule(
            true,
            Some(("S1", false)),
            "Ev1",
            None,
            None,
            Some(ActionStmt { expr: Expr::Operand(Operand::Lit(7)) }),
            "S2",
            Some(Expr::Operand(Operand::Ctx)),
        )],
        vec![],
    );
    let mut machine = Machine::new(m, 0);
    let r = machine.process_event(&ev("Ev1")).unwrap();
    assert_eq!(r.payload, Some(7));
    assert_eq!(*machine.context(), 7);
}
