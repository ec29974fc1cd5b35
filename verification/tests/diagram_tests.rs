use smlang::ast::StateMachine;
use smlang::diagram::escape;
use smlang::diagram::generate_diagram;
use smlang::model::ParsedStateMachine;

#[test]
fn escape_prefixes_special_characters_with_backslashes() {
    assert_eq!(escape("a(b)".to_string()), "a\\(b\\)".to_string());
    assert_eq!(escape("x|y".to_string()), "x\\|y".to_string());
    assert_eq!(escape("[{\"}]".to_string()), "\\[\\{\\\"\\}\\]".to_string());
    assert_eq!(escape("plain".to_string()), "plain".to_string());
    assert_eq!(escape(String::new()), String::new());
}

#[test]
fn diagram_renders_states_labels_and_edges() {
    let sm = StateMachine::parse("transitions: {*S1 + Ev1 = S2}").unwrap();
    let m = ParsedStateMachine::new(sm).unwrap();
    let d = generate_diagram(&m);
    assert!(d.starts_with("digraph G {\n"));
    assert!(d.ends_with("}"));
    assert!(d.contains("s -> S1\n"));
    assert!(d.contains("\t\"S1\" [shape=box color=\"red\" fillcolor=\"#ffbb33\" style=filled]\n"));
    assert!(d.contains("\t\"S2\" [shape=box color=\"red\" fillcolor=\"#ffbb33\" style=filled]\n"));
    assert!(d.contains("\t1 [shape=box label=\"1: S1 + Ev1 = S2\"]\n"));
    assert!(d.contains("\t\"S1\" -> \"S2\" [color=blue label=1];\n"));
}

#[test]
fn diagram_escapes_label_pieces_and_numbers_rules() {
    let sm = StateMachine::parse(
        "transitions: {*S1 + Ev1(5) [ctx <= 10] / ctx = ctx + 1 = S2(42), S2(u64) + Ev2 = S1}",
    )
    .unwrap();
    let m = ParsedStateMachine::new(sm).unwrap();
    let d = generate_diagram(&m);
    // The pattern and guard are escaped; the payload expression is not.
    assert!(d.contains("\t1 [shape=box label=\"1: S1 + Ev1(5)[ctx <= 10] / ctx = ctx + 1 = S2(42)\"]\n"));
    assert!(d.contains("\t2 [shape=box label=\"2: S2\\(data\\) + Ev2 = S1\"]\n"));
    // A payload-carrying state renders with its data marker.
    assert!(d.contains("\t\"S2\\(data\\)\" [shape=box"));
    assert!(d.contains("\t\"S1\" -> \"S2\\(data\\)\" [color=blue label=1];\n"));
    assert!(d.contains("\t\"S2\\(data\\)\" -> \"S1\" [color=blue label=2];\n"));
}

#[test]
fn diagram_exact_text_for_a_tiny_machine() {
    let sm = StateMachine::parse("transitions: {*S1 + Ev1 = S2}").unwrap();
    let m = ParsedStateMachine::new(sm).unwrap();
    let d = generate_diagram(&m);
    let expected = "digraph G {\n    rankdir=\"LR\";\n    node [fontname=Arial];\n    edge [fontname=Arial];\n    s [shape=circle size=2 color=\"black\" style=filled]\n\n    s -> S1\n\t\"S1\" [shape=box color=\"red\" fillcolor=\"#ffbb33\" style=filled]\n\t\"S2\" [shape=box color=\"red\" fillcolor=\"#ffbb33\" style=filled]\n\n\t1 [shape=box label=\"1: S1 + Ev1 = S2\"]\n\n\t\"S1\" -> \"S2\" [color=blue label=1];\n}";
    assert_eq!(d, expected);
}
