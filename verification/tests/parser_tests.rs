use smlang::ast::CmpOp;
use smlang::ast::EventPattern;
use smlang::ast::Expr;
use smlang::ast::GuardExpr;
use smlang::ast::Operand;
use smlang::ast::StateMachine;
use smlang::machine::EventValue;
use smlang::machine::Machine;
use smlang::model::ParsedStateMachine;
use smlang::parser::ParseErrorKind;

#[test]
fn empty_input_parses_to_an_empty_rule_set() {
    let sm = StateMachine::parse("").unwrap();
    assert!(sm.transitions.is_empty());
    assert!(sm.wildcards.is_empty());
    assert!(sm.states_attrs.is_empty());

    let sm = StateMachine::parse("  \n\t ").unwrap();
    assert!(sm.transitions.is_empty());
}

#[test]
fn plain_transitions_parse_in_order() {
    let sm = StateMachine::parse("transitions: {*S1 + Ev1 = S2, S2 + Ev2 = S3}").unwrap();
    assert_eq!(sm.transitions.len(), 2);
    assert!(sm.wildcards.is_empty());

    let first = &sm.transitions[0];
    assert!(first.start);
    assert_eq!(first.in_state.as_ref().unwrap().name, "S1");
    assert!(!first.in_state.as_ref().unwrap().has_payload);
    assert_eq!(first.event, "Ev1");
    assert_eq!(first.out_state, "S2");
    assert!(first.event_pattern.is_none());
    assert!(first.guard.is_none());
    assert!(first.actions.is_none());
    assert!(first.out_state_data_expr.is_none());

    let second = &sm.transitions[1];
    assert!(!second.start);
    assert_eq!(second.in_state.as_ref().unwrap().name, "S2");
}

#[test]
fn wildcard_rules_are_routed_to_their_own_list() {
    let sm = StateMachine::parse("transitions: {*S1 + Ev1 = S2, _ + EvX = S4}").unwrap();
    assert_eq!(sm.transitions.len(), 1);
    assert_eq!(sm.wildcards.len(), 1);
    assert!(sm.wildcards[0].in_state.is_none());
    assert_eq!(sm.wildcards[0].event, "EvX");
    assert_eq!(sm.wildcards[0].out_state, "S4");
}

#[test]
fn full_rule_with_pattern_guard_action_and_payload() {
    let sm = StateMachine::parse(
        "transitions: {*S1(u64) + Ev1(5) [ctx <= 10] / ctx = ctx + 1 = S2(state + event)}",
    )
    .unwrap();
    assert_eq!(sm.transitions.len(), 1);
    let t = &sm.transitions[0];
    assert!(t.start);
    let d = t.in_state.as_ref().unwrap();
    assert_eq!(d.name, "S1");
    assert!(d.has_payload);
    assert_eq!(t.event, "Ev1");
    assert_eq!(t.event_pattern, Some(EventPattern::Lit(5)));
    assert_eq!(t.guard, Some(GuardExpr::Cmp(CmpOp::Le, Operand::Ctx, Operand::Lit(10))));
    let a = t.actions.unwrap();
    assert_eq!(a.expr, Expr::Add(Operand::Ctx, Operand::Lit(1)));
    assert_eq!(t.out_state, "S2");
    assert_eq!(
        t.out_state_data_expr,
        Some(Expr::Add(Operand::StatePayload, Operand::EventPayload))
    );
}

#[test]
fn binding_pattern_and_boolean_guards() {
    let sm = StateMachine::parse(
        "transitions: {*S1 + Ev1(_) [true] = S2, S2 + Ev2(data) [false] = S3}",
    )
    .unwrap();
    assert_eq!(sm.transitions[0].event_pattern, Some(EventPattern::Any));
    assert_eq!(sm.transitions[0].guard, Some(GuardExpr::Lit(true)));
    assert_eq!(sm.transitions[1].event_pattern, Some(EventPattern::Any));
    assert_eq!(sm.transitions[1].guard, Some(GuardExpr::Lit(false)));
}

#[test]
fn trailing_commas_are_optional() {
    let sm = StateMachine::parse("transitions: {*S1 + Ev1 = S2,},").unwrap();
    assert_eq!(sm.transitions.len(), 1);

    let sm = StateMachine::parse("transitions: {*S1 + Ev1 = S2}").unwrap();
    assert_eq!(sm.transitions.len(), 1);
}

#[test]
fn states_attr_section_collects_a_tag() {
    let sm = StateMachine::parse(
        "states_attr: #[derive(Debug)], transitions: {*S1 + Ev1 = S2}",
    )
    .unwrap();
    assert_eq!(sm.states_attrs, vec!["derive(Debug)".to_string()]);
    assert_eq!(sm.transitions.len(), 1);

    let sm = StateMachine::parse(
        "states_attr: #[derive(Debug)], states_attr: #[non_exhaustive], transitions: {*A + E = B}",
    )
    .unwrap();
    assert_eq!(
        sm.states_attrs,
        vec!["derive(Debug)".to_string(), "non_exhaustive".to_string()]
    );
}

#[test]
fn unknown_keyword_is_a_hard_error_naming_it() {
    let e = StateMachine::parse("foo: {}").unwrap_err();
    assert_eq!(e.pos, 0);
    assert_eq!(e.kind, ParseErrorKind::UnknownKeyword("foo".to_string()));
    assert_eq!(
        e.message(),
        "Unknown keyword foo. Supported keywords: [transitions, states_attr]"
    );
}

#[test]
fn structural_mismatches_fail_at_their_position() {
    let e = StateMachine::parse("transitions {").unwrap_err();
    assert_eq!(e.kind, ParseErrorKind::ExpectedChar(':'));
    assert_eq!(e.pos, 12);

    let e = StateMachine::parse("transitions: {*S1 + Ev1 S2}").unwrap_err();
    assert_eq!(e.kind, ParseErrorKind::ExpectedChar('='));
    assert_eq!(e.pos, 24);

    let e = StateMachine::parse("transitions: {*S1 Ev1 = S2}").unwrap_err();
    assert_eq!(e.kind, ParseErrorKind::ExpectedChar('+'));

    let e = StateMachine::parse("transitions: {*S1 + Ev1 = S2").unwrap_err();
    assert_eq!(e.kind, ParseErrorKind::ExpectedChar('}'));

    let e = StateMachine::parse("transitions: ").unwrap_err();
    assert_eq!(e.kind, ParseErrorKind::ExpectedChar('{'));

    let e = StateMachine::parse("transitions: {*S1 + Ev1 = S2} junk").unwrap_err();
    assert_eq!(e.kind, ParseErrorKind::ExpectedChar(','));
}

#[test]
fn missing_identifiers_are_reported() {
    let e = StateMachine::parse("transitions: {* + Ev1 = S2}").unwrap_err();
    assert_eq!(e.kind, ParseErrorKind::ExpectedIdent);

    let e = StateMachine::parse("transitions: {*S1 + = S2}").unwrap_err();
    assert_eq!(e.kind, ParseErrorKind::ExpectedIdent);
}

#[test]
fn oversized_numeric_literal_is_rejected() {
    let e = StateMachine::parse("transitions: {*S1 + Ev1(99999999999999999999) = S2}")
        .unwrap_err();
    assert_eq!(e.kind, ParseErrorKind::NumberTooLarge);

    // The largest payload value is accepted.
    let sm =
        StateMachine::parse("transitions: {*S1 + Ev1(18446744073709551615) = S2}").unwrap();
    assert_eq!(sm.transitions[0].event_pattern, Some(EventPattern::Lit(u64::MAX)));
}

#[test]
fn action_must_assign_to_the_context() {
    let e = StateMachine::parse("transitions: {*S1 + Ev1 / foo = 1 = S2}").unwrap_err();
    assert_eq!(e.kind, ParseErrorKind::ExpectedCtx);
}

#[test]
fn bad_operands_and_comparisons_are_reported() {
    let e = StateMachine::parse("transitions: {*S1 + Ev1 [foo == 1] = S2}").unwrap_err();
    assert_eq!(e.kind, ParseErrorKind::ExpectedOperand);

    let e = StateMachine::parse("transitions: {*S1 + Ev1 [ctx ~ 1] = S2}").unwrap_err();
    assert_eq!(e.kind, ParseErrorKind::ExpectedCmp);
}

#[test]
fn unterminated_tag_is_reported() {
    let e = StateMachine::parse("states_attr: #[derive(Debug)").unwrap_err();
    assert_eq!(e.kind, ParseErrorKind::UnterminatedTag);
}

#[test]
fn comparison_operators_all_parse() {
    let ops = [
        ("==", CmpOp::Eq),
        ("!=", CmpOp::Ne),
        ("<", CmpOp::Lt),
        ("<=", CmpOp::Le),
        (">", CmpOp::Gt),
        (">=", CmpOp::Ge),
    ];
    for (text, op) in ops {
        let src = format!("transitions: {{*S1 + Ev1 [ctx {} 3] = S2}}", text);
        let sm = StateMachine::parse(&src).unwrap();
        assert_eq!(
            sm.transitions[0].guard,
            Some(GuardExpr::Cmp(op, Operand::Ctx, Operand::Lit(3))),
            "operator {}",
            text
        );
    }
}

#[test]
fn parsed_text_runs_end_to_end() {
    let sm = StateMachine::parse(
        "transitions: {*S1 + Ev1 = S2, S2 + Ev2 = S3, S3 + Ev3 = S2, _ + Reset = S1}",
    )
    .unwrap();
    let m = ParsedStateMachine::new(sm).unwrap();
    let mut machine = Machine::new(m, 0);
    let go = |machine: &mut Machine, name: &str| {
        machine.process_event(&EventValue { name: name.to_string(), payload: None })
    };
    assert_eq!(go(&mut machine, "Ev1").unwrap().name, "S2");
    assert_eq!(go(&mut machine, "Ev2").unwrap().name, "S3");
    assert_eq!(go(&mut machine, "Reset").unwrap().name, "S1");
    assert_eq!(go(&mut machine, "Ev2"), None);
    assert_eq!(machine.state().name, "S1");
}

#[test]
fn single_rule_parses_on_its_own() {
    let (t, end) = smlang::ast::StateTransition::parse("*S1 + Ev1 = S2").unwrap();
    assert!(t.start);
    assert_eq!(t.in_state.unwrap().name, "S1");
    assert_eq!(t.event, "Ev1");
    assert_eq!(t.out_state, "S2");
    assert_eq!(end, 14);

    let e = smlang::ast::StateTransition::parse("S1 + ").unwrap_err();
    assert_eq!(e.kind, ParseErrorKind::ExpectedIdent);
}

#[test]
fn action_and_payload_expression_parse_together() {
    let sm = StateMachine::parse("transitions: {*S1 + E / ctx = 5 = S2(ctx)}").unwrap();
    let t = &sm.transitions[0];
    assert_eq!(t.actions.unwrap().expr, Expr::Operand(Operand::Lit(5)));
    assert_eq!(t.out_state_data_expr, Some(Expr::Operand(Operand::Ctx)));
}
