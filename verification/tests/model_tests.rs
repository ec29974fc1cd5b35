use smlang::ast::Expr;
use smlang::ast::Operand;
use smlang::ast::StateDecl;
use smlang::ast::StateMachine;
use smlang::ast::StateTransition;
use smlang::model::ModelError;
use smlang::model::ParsedStateMachine;

fn rule(
    start: bool,
    in_state: Option<(&str, bool)>,
    event: &str,
    out_state: &str,
    out_state_data_expr: Option<Expr>,
) -> StateTransition {
    StateTransition {
        start,
        in_state: in_state.map(|(n, p)| StateDecl { name: n.to_string(), has_payload: p }),
        event: event.to_string(),
        event_pattern: None,
        guard: None,
        actions: None,
        out_state: out_state.to_string(),
        out_state_data_expr,
    }
}

fn machine_of(rules: Vec<StateTransition>, wildcards: Vec<StateTransition>) -> StateMachine {
    let mut sm = StateMachine::new();
    for r in rules {
        sm.add_transition(r);
    }
    for w in wildcards {
        sm.add_wildcard(w);
    }
    sm
}

#[test]
fn no_starting_state_is_rejected_with_its_message() {
    let sm = machine_of(vec![rule(false, Some(("S1", false)), "E", "S2", None)], vec![]);
    let e = ParsedStateMachine::new(sm).unwrap_err();
    assert_eq!(e, ModelError::NoStartingState);
    assert_eq!(
        e.message(),
        "No starting state defined, indicate the starting state with a marker."
    );
}

#[test]
fn two_starting_states_are_rejected_with_their_message() {
    let sm = machine_of(
        vec![
            rule(true, Some(("S1", false)), "E1", "S2", None),
            rule(true, Some(("S2", false)), "E2", "S3", None),
        ],
        vec![],
    );
    let e = ParsedStateMachine::new(sm).unwrap_err();
    assert_eq!(e, ModelError::MultipleStartingStates);
    assert_eq!(e.message(), "More than one starting state defined, remove duplicates.");
}

#[test]
fn start_marker_on_a_wildcard_does_not_count() {
    // A start-marked wildcard rule is never a starting state.
    let sm = machine_of(
        vec![rule(false, Some(("S1", false)), "E", "S2", None)],
        vec![rule(true, None, "EX", "S4", None)],
    );
    let e = ParsedStateMachine::new(sm).unwrap_err();
    assert_eq!(e, ModelError::NoStartingState);
}

#[test]
fn missing_payload_constructor_is_rejected_with_its_message() {
    // The first rule types S2 as payload-carrying at its construction
    // site; the second reaches S2 without constructing the payload.
    let sm = machine_of(
        vec![
            rule(
                true,
                Some(("S1", false)),
                "E1",
                "S2",
                Some(Expr::Operand(Operand::Lit(5))),
            ),
            rule(false, Some(("S1", false)), "E2", "S2", None),
        ],
        vec![],
    );
    let e = ParsedStateMachine::new(sm).unwrap_err();
    assert_eq!(e, ModelError::MissingPayloadConstructor("S2".to_string()));
    assert_eq!(
        e.message(),
        "This state has data associated, but no action/expression is defined here to provide it."
    );
}

#[test]
fn payload_typed_input_state_needs_a_constructor_to_reach_it() {
    let sm = machine_of(
        vec![
            rule(true, Some(("S1", false)), "E1", "S2", None),
            rule(false, Some(("S2", true)), "E2", "S3", None),
        ],
        vec![],
    );
    let e = ParsedStateMachine::new(sm).unwrap_err();
    assert_eq!(e, ModelError::MissingPayloadConstructor("S2".to_string()));
}

#[test]
fn states_and_dispatch_table_share_their_keys() {
    let sm = machine_of(
        vec![
            rule(true, Some(("S1", false)), "E1", "S2", None),
            rule(false, Some(("S2", false)), "E2", "S3", None),
        ],
        vec![rule(false, None, "EX", "S4", None)],
    );
    let m = ParsedStateMachine::new(sm).unwrap();
    let state_names: Vec<&str> = m.states.iter().map(|d| d.name.as_str()).collect();
    let map_names: Vec<&str> =
        m.states_events_mapping.iter().map(|e| e.state.as_str()).collect();
    assert_eq!(state_names, map_names);
    assert_eq!(state_names, vec!["S1", "S2", "S3", "S4"]);
}

#[test]
fn dispatch_lists_put_explicit_rules_before_all_wildcards() {
    let sm = machine_of(
        vec![
            rule(true, Some(("S1", false)), "E1", "S2", None),
            rule(false, Some(("S1", false)), "E2", "S3", None),
            rule(false, Some(("S2", false)), "E3", "S1", None),
        ],
        vec![
            rule(false, None, "W1", "S4", None),
            rule(false, None, "W2", "S5", None),
        ],
    );
    let m = ParsedStateMachine::new(sm).unwrap();
    let s1 = &m.states_events_mapping[0];
    assert_eq!(s1.state, "S1");
    let events: Vec<&str> = s1.rules.iter().map(|r| r.event.as_str()).collect();
    assert_eq!(events, vec!["E1", "E2", "W1", "W2"]);

    let s2 = &m.states_events_mapping[1];
    assert_eq!(s2.state, "S2");
    let events: Vec<&str> = s2.rules.iter().map(|r| r.event.as_str()).collect();
    assert_eq!(events, vec!["E3", "W1", "W2"]);

    // A destination-only state still carries the wildcard suffix.
    let s3 = &m.states_events_mapping[2];
    assert_eq!(s3.state, "S3");
    let events: Vec<&str> = s3.rules.iter().map(|r| r.event.as_str()).collect();
    assert_eq!(events, vec!["W1", "W2"]);
}

#[test]
fn starting_state_is_the_marked_rule_input() {
    let sm = machine_of(
        vec![
            rule(false, Some(("S0", false)), "E0", "S1", Some(Expr::Operand(Operand::Lit(7)))),
            rule(true, Some(("S1", true)), "E1", "S1", Some(Expr::Operand(Operand::Lit(1)))),
        ],
        vec![],
    );
    let m = ParsedStateMachine::new(sm).unwrap();
    assert_eq!(m.starting_state.name, "S1");
    assert!(m.starting_state.has_payload);
}

#[test]
fn last_payload_declaration_wins() {
    // S1 is first declared payload-carrying, then unit: the last
    // declaration silently wins, at the original registry position.
    let sm = machine_of(
        vec![
            rule(true, Some(("S1", true)), "E1", "S1", Some(Expr::Operand(Operand::Lit(0)))),
            rule(false, Some(("S1", false)), "E2", "S2", None),
        ],
        vec![],
    );
    let m = ParsedStateMachine::new(sm).unwrap();
    assert_eq!(m.states[0].name, "S1");
    assert!(!m.states[0].has_payload);
}

#[test]
fn destination_only_state_defaults_to_unit() {
    let sm = machine_of(vec![rule(true, Some(("S1", false)), "E1", "S2", None)], vec![]);
    let m = ParsedStateMachine::new(sm).unwrap();
    assert_eq!(m.states[1].name, "S2");
    assert!(!m.states[1].has_payload);
}

#[test]
fn construction_site_types_a_destination_only_state() {
    let sm = machine_of(
        vec![rule(
            true,
            Some(("S1", false)),
            "E1",
            "S2",
            Some(Expr::Operand(Operand::Lit(42))),
        )],
        vec![],
    );
    let m = ParsedStateMachine::new(sm).unwrap();
    assert_eq!(m.states[1].name, "S2");
    assert!(m.states[1].has_payload);
}

#[test]
fn metadata_tags_pass_through_in_order() {
    let mut sm = machine_of(vec![rule(true, Some(("S1", false)), "E1", "S2", None)], vec![]);
    sm.add_state_attrs(vec!["derive(Debug)".to_string(), "non_exhaustive".to_string()]);
    let m = ParsedStateMachine::new(sm).unwrap();
    assert_eq!(m.states_attrs, vec!["derive(Debug)".to_string(), "non_exhaustive".to_string()]);
}
