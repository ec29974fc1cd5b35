//! The diagram exporter: a read-only consumer of the finished semantic
//! model that renders one node per state and one labelled edge per
//! dispatched rule, in the `dot` graph-description language.
//!
//! The exporter never mutates the model; its whole output is pinned to
//! the specification-level renderer [`spec_diagram`].

use vstd::prelude::*;
use crate::ast::ActionStmt;
use crate::ast::CmpOp;
use crate::ast::EventPattern;
use crate::ast::Expr;
use crate::ast::GuardExpr;
use crate::ast::Operand;
use crate::ast::StateDecl;
use crate::ast::StateDeclView;
use crate::ast::StateTransition;
use crate::ast::TransitionView;
use crate::model::ParsedStateMachine;
use crate::model::ParsedStateMachineView;
use crate::model::reg_decl;
use crate::model::reg_find;
use crate::model::find_state;

verus! {

/// A character that must be escaped in a `dot` label.
pub open spec fn escapable(c: char) -> bool {
    c == '(' || c == ')' || c == '|' || c == '[' || c == ']' || c == '{' || c == '}' || c == '"'
}

/// The escaped form of one character.
pub open spec fn esc_char(c: char) -> Seq<char> {
    if c == '(' {
        "\\("@
    } else if c == ')' {
        "\\)"@
    } else if c == '|' {
        "\\|"@
    } else if c == '[' {
        "\\["@
    } else if c == ']' {
        "\\]"@
    } else if c == '{' {
        "\\{"@
    } else if c == '}' {
        "\\}"@
    } else if c == '"' {
        "\\\""@
    } else {
        seq![c]
    }
}

/// The escaped form of a label text: every bracket, bar, brace,
/// parenthesis and double quote is preceded by a backslash.
pub open spec fn spec_escape(s: Seq<char>) -> Seq<char>
    decreases s.len(),
{
    if s.len() == 0 {
        Seq::empty()
    } else {
        spec_escape(s.drop_last()) + esc_char(s.last())
    }
}

/// Escapes a label text for `dot`.
pub fn escape(v: String) -> (r: String)
    ensures
        r@ == spec_escape(v@),
{
    let n = v.as_str().unicode_len();
    let mut out = String::new();
    let mut i: usize = 0;
    while i < n
        invariant
            n == v@.len(),
            i <= n,
            out@ == spec_escape(v@.take(i as int)),
        decreases n - i,
    {
        let c = v.as_str().get_char(i);
        proof {
            assert(v@.take(i + 1).drop_last() =~= v@.take(i as int));
            assert(v@.take(i + 1).last() == v@[i as int]);
        }
        let u = c as u32;
        if u == 40 {
            out.append("\\(");
        } else if u == 41 {
            out.append("\\)");
        } else if u == 124 {
            out.append("\\|");
        } else if u == 91 {
            out.append("\\[");
        } else if u == 93 {
            out.append("\\]");
        } else if u == 123 {
            out.append("\\{");
        } else if u == 125 {
            out.append("\\}");
        } else if u == 34 {
            out.append("\\\"");
        } else {
            let piece = v.as_str().substring_char(i, i + 1);
            proof {
                assert(piece@ =~= seq![v@[i as int]]);
                assert(!escapable(c)) by {
                    assert(c as int == u as int);
                }
            }
            out.append(piece);
        }
        i = i + 1;
    }
    proof {
        assert(v@.take(n as int) =~= v@);
    }
    out
}

/// The decimal rendering of one digit.
pub open spec fn spec_digit_str(d: u64) -> Seq<char> {
    if d == 0 {
        "0"@
    } else if d == 1 {
        "1"@
    } else if d == 2 {
        "2"@
    } else if d == 3 {
        "3"@
    } else if d == 4 {
        "4"@
    } else if d == 5 {
        "5"@
    } else if d == 6 {
        "6"@
    } else if d == 7 {
        "7"@
    } else if d == 8 {
        "8"@
    } else {
        "9"@
    }
}

/// The decimal rendering of an unsigned value.
pub open spec fn spec_u64_str(n: u64) -> Seq<char>
    decreases n,
{
    if n < 10 {
        spec_digit_str(n)
    } else {
        spec_u64_str((n / 10) as u64) + spec_digit_str((n % 10) as u64)
    }
}

/// Renders one digit.
fn digit_str(d: u64) -> (r: &'static str)
    requires
        d < 10,
    ensures
        r@ == spec_digit_str(d),
{
    if d == 0 {
        "0"
    } else if d == 1 {
        "1"
    } else if d == 2 {
        "2"
    } else if d == 3 {
        "3"
    } else if d == 4 {
        "4"
    } else if d == 5 {
        "5"
    } else if d == 6 {
        "6"
    } else if d == 7 {
        "7"
    } else if d == 8 {
        "8"
    } else {
        "9"
    }
}

/// Renders an unsigned value in decimal.
fn u64_string(n: u64) -> (r: String)
    ensures
        r@ == spec_u64_str(n),
    decreases n,
{
    if n < 10 {
        digit_str(n).to_owned()
    } else {
        let mut s = u64_string(n / 10);
        s.append(digit_str(n % 10));
        s
    }
}

/// A state's node text: its name, with a payload marker where it
/// carries data.
pub open spec fn spec_render_state(d: StateDeclView) -> Seq<char> {
    if d.has_payload {
        d.name + "(data)"@
    } else {
        d.name
    }
}

/// An operand's text.
pub open spec fn spec_render_operand(o: Operand) -> Seq<char> {
    match o {
        Operand::Lit(n) => spec_u64_str(n),
        Operand::Ctx => "ctx"@,
        Operand::StatePayload => "state"@,
        Operand::EventPayload => "event"@,
    }
}

/// An expression's text.
pub open spec fn spec_render_expr(e: Expr) -> Seq<char> {
    match e {
        Expr::Operand(o) => spec_render_operand(o),
        Expr::Add(a, b) => spec_render_operand(a) + " + "@ + spec_render_operand(b),
    }
}

/// A comparison operator's text.
pub open spec fn spec_render_cmp(op: CmpOp) -> Seq<char> {
    match op {
        CmpOp::Eq => "=="@,
        CmpOp::Ne => "!="@,
        CmpOp::Lt => "<"@,
        CmpOp::Le => "<="@,
        CmpOp::Gt => ">"@,
        CmpOp::Ge => ">="@,
    }
}

/// A pattern's text.
pub open spec fn spec_render_pattern(p: EventPattern) -> Seq<char> {
    match p {
        EventPattern::Any => "_"@,
        EventPattern::Lit(n) => spec_u64_str(n),
    }
}

/// A guard's text.
pub open spec fn spec_render_guard(g: GuardExpr) -> Seq<char> {
    match g {
        GuardExpr::Lit(b) => if b {
            "true"@
        } else {
            "false"@
        },
        GuardExpr::Cmp(op, a, b) => spec_render_operand(a) + " "@ + spec_render_cmp(op) + " "@
            + spec_render_operand(b),
    }
}

/// An action's text.
pub open spec fn spec_render_action(a: ActionStmt) -> Seq<char> {
    "ctx = "@ + spec_render_expr(a.expr)
}

/// A destination's node text: the registered declaration's rendering,
/// or the bare name where the destination is unregistered.
pub open spec fn spec_render_out(m: ParsedStateMachineView, name: Seq<char>) -> Seq<char> {
    if reg_find(m.states, name) is Some {
        spec_render_state(reg_decl(m.states, name))
    } else {
        name
    }
}

/// An edge's label: the rule as declared, with the label pieces
/// escaped as the original text tokens they are.
pub open spec fn spec_label(d: StateDeclView, r: TransitionView) -> Seq<char> {
    spec_escape(spec_render_state(d)) + " + "@ + r.event + (match r.event_pattern {
        Some(p) => "("@ + spec_escape(spec_render_pattern(p)) + ")"@,
        None => Seq::<char>::empty(),
    }) + (match r.guard {
        Some(g) => "["@ + spec_escape(spec_render_guard(g)) + "]"@,
        None => Seq::<char>::empty(),
    }) + (match r.actions {
        Some(a) => " / "@ + spec_escape(spec_render_action(a)),
        None => Seq::<char>::empty(),
    }) + " = "@ + r.out_state + (match r.out_state_data_expr {
        Some(e) => "("@ + spec_render_expr(e) + ")"@,
        None => Seq::<char>::empty(),
    })
}

/// One node line per state.
pub open spec fn spec_state_line(d: StateDeclView) -> Seq<char> {
    "\t\""@ + spec_escape(spec_render_state(d))
        + "\" [shape=box color=\"red\" fillcolor=\"#ffbb33\" style=filled]\n"@
}

/// The node lines of the first `k` states.
pub open spec fn spec_states_block(states: Seq<StateDeclView>, k: int) -> Seq<char>
    decreases k,
{
    if k <= 0 {
        Seq::empty()
    } else {
        spec_states_block(states, k - 1) + spec_state_line(states[k - 1])
    }
}

/// The dispatched pairs of one state: its declaration beside each rule
/// of its dispatch list, up to `k`.
pub open spec fn spec_entry_pairs(
    d: StateDeclView,
    rules: Seq<TransitionView>,
    k: int,
) -> Seq<(StateDeclView, TransitionView)>
    decreases k,
{
    if k <= 0 {
        Seq::empty()
    } else {
        spec_entry_pairs(d, rules, k - 1).push((d, rules[k - 1]))
    }
}

/// All dispatched pairs of the first `k` states, in dispatch order.
pub open spec fn spec_all_pairs(m: ParsedStateMachineView, k: int) -> Seq<
    (StateDeclView, TransitionView),
>
    decreases k,
{
    if k <= 0 {
        Seq::empty()
    } else {
        spec_all_pairs(m, k - 1) + spec_entry_pairs(
            m.states[k - 1],
            m.states_events_mapping[k - 1].rules,
            m.states_events_mapping[k - 1].rules.len() as int,
        )
    }
}

/// One numbered label box per dispatched rule; numbering is one-based
/// in dispatch order.
pub open spec fn spec_event_line(p: (StateDeclView, TransitionView), idx: u64) -> Seq<char> {
    "\t"@ + spec_u64_str(idx) + " [shape=box label=\""@ + spec_u64_str(idx) + ": "@ + spec_label(
        p.0,
        p.1,
    ) + "\"]\n"@
}

/// The label boxes of the first `k` dispatched pairs.
pub open spec fn spec_events_block(ps: Seq<(StateDeclView, TransitionView)>, k: int) -> Seq<char>
    decreases k,
{
    if k <= 0 {
        Seq::empty()
    } else {
        spec_events_block(ps, k - 1) + spec_event_line(ps[k - 1], k as u64)
    }
}

/// One edge per dispatched rule, labelled by its number.
pub open spec fn spec_edge_line(
    m: ParsedStateMachineView,
    p: (StateDeclView, TransitionView),
    idx: u64,
) -> Seq<char> {
    "\t\""@ + spec_escape(spec_render_state(p.0)) + "\" -> \""@ + spec_escape(
        spec_render_out(m, p.1.out_state),
    ) + "\" [color=blue label="@ + spec_u64_str(idx) + "];\n"@
}

/// The edges of the first `k` dispatched pairs.
pub open spec fn spec_edges_block(
    m: ParsedStateMachineView,
    ps: Seq<(StateDeclView, TransitionView)>,
    k: int,
) -> Seq<char>
    decreases k,
{
    if k <= 0 {
        Seq::empty()
    } else {
        spec_edges_block(m, ps, k - 1) + spec_edge_line(m, ps[k - 1], k as u64)
    }
}

/// The whole diagram text.
pub open spec fn spec_diagram(m: ParsedStateMachineView) -> Seq<char> {
    let ps = spec_all_pairs(m, m.states.len() as int);
    "digraph G {\n    rankdir=\"LR\";\n    node [fontname=Arial];\n    edge [fontname=Arial];\n    s [shape=circle size=2 color=\"black\" style=filled]\n\n    s -> "@
        + m.starting_state.name + "\n"@ + spec_states_block(m.states, m.states.len() as int)
        + "\n"@ + spec_events_block(ps, ps.len() as int) + "\n"@ + spec_edges_block(
        m,
        ps,
        ps.len() as int,
    ) + "}"@
}

/// The views of a sequence of dispatched pairs.
pub open spec fn pairs_view_of(s: Seq<(StateDecl, StateTransition)>) -> Seq<
    (StateDeclView, TransitionView),
> {
    s.map_values(|p: (StateDecl, StateTransition)| (p.0@, p.1@))
}

/// Renders a state's node text.
fn render_state(d: &StateDecl) -> (r: String)
    ensures
        r@ == spec_render_state(d@),
{
    let mut s = d.name.clone();
    if d.has_payload {
        s.append("(data)");
    }
    s
}

/// Renders an operand.
fn render_operand(o: Operand) -> (r: String)
    ensures
        r@ == spec_render_operand(o),
{
    match o {
        Operand::Lit(n) => u64_string(n),
        Operand::Ctx => "ctx".to_owned(),
        Operand::StatePayload => "state".to_owned(),
        Operand::EventPayload => "event".to_owned(),
    }
}

/// Renders an expression.
fn render_expr(e: Expr) -> (r: String)
    ensures
        r@ == spec_render_expr(e),
{
    match e {
        Expr::Operand(o) => render_operand(o),
        Expr::Add(a, b) => {
            let mut s = render_operand(a);
            s.append(" + ");
            let sb = render_operand(b);
            s.append(sb.as_str());
            s
        },
    }
}

/// Renders a pattern.
fn render_pattern(p: EventPattern) -> (r: String)
    ensures
        r@ == spec_render_pattern(p),
{
    match p {
        EventPattern::Any => "_".to_owned(),
        EventPattern::Lit(n) => u64_string(n),
    }
}

/// Renders a guard.
fn render_guard(g: GuardExpr) -> (r: String)
    ensures
        r@ == spec_render_guard(g),
{
    match g {
        GuardExpr::Lit(b) => if b {
            "true".to_owned()
        } else {
            "false".to_owned()
        },
        GuardExpr::Cmp(op, a, b) => {
            let mut s = render_operand(a);
            s.append(" ");
            match op {
                CmpOp::Eq => s.append("=="),
                CmpOp::Ne => s.append("!="),
                CmpOp::Lt => s.append("<"),
                CmpOp::Le => s.append("<="),
                CmpOp::Gt => s.append(">"),
                CmpOp::Ge => s.append(">="),
            }
            s.append(" ");
            let sb = render_operand(b);
            s.append(sb.as_str());
            s
        },
    }
}

/// Renders the label of one dispatched rule.
fn render_label(d: &StateDecl, t: &StateTransition) -> (r: String)
    ensures
        r@ == spec_label(d@, t@),
{
    let mut s = escape(render_state(d));
    s.append(" + ");
    s.append(t.event.as_str());
    match t.event_pattern {
        Some(p) => {
            s.append("(");
            let e = escape(render_pattern(p));
            s.append(e.as_str());
            s.append(")");
        },
        None => {},
    }
    match t.guard {
        Some(g) => {
            s.append("[");
            let e = escape(render_guard(g));
            s.append(e.as_str());
            s.append("]");
        },
        None => {},
    }
    match t.actions {
        Some(a) => {
            s.append(" / ");
            let mut act = String::from_str("ctx = ");
            let ex = render_expr(a.expr);
            act.append(ex.as_str());
            let e = escape(act);
            s.append(e.as_str());
        },
        None => {},
    }
    s.append(" = ");
    s.append(t.out_state.as_str());
    match t.out_state_data_expr {
        Some(e) => {
            s.append("(");
            let ex = render_expr(e);
            s.append(ex.as_str());
            s.append(")");
        },
        None => {},
    }
    s
}

/// Generates the `dot` text of a state-machine diagram: one node per
/// registered state, one numbered label box and one edge per
/// dispatched rule, the starting state marked by an entry arrow.
pub fn generate_diagram(sm: &ParsedStateMachine) -> (r: String)
    requires
        sm@.wf(),
    ensures
        r@ == spec_diagram(sm@),
{
    let ghost mv = sm@;
    let mut out = String::from_str(
        "digraph G {\n    rankdir=\"LR\";\n    node [fontname=Arial];\n    edge [fontname=Arial];\n    s [shape=circle size=2 color=\"black\" style=filled]\n\n    s -> ",
    );
    let ghost header = out@;
    out.append(sm.starting_state.name.as_str());
    out.append("\n");
    let ghost pre_states = out@;
    let mut i: usize = 0;
    while i < sm.states.len()
        invariant
            i <= sm.states.len(),
            mv == sm@,
            pre_states == header + mv.starting_state.name + "\n"@,
            out@ == pre_states + spec_states_block(mv.states, i as int),
        decreases sm.states.len() - i,
    {
        proof {
            assert(mv.states[i as int] == sm.states@[i as int]@);
        }
        out.append("\t\"");
        let e = escape(render_state(&sm.states[i]));
        out.append(e.as_str());
        out.append("\" [shape=box color=\"red\" fillcolor=\"#ffbb33\" style=filled]\n");
        proof {
            assert(out@ =~= pre_states + spec_states_block(mv.states, i as int + 1));
        }
        i = i + 1;
    }
    out.append("\n");
    // All dispatched pairs, in dispatch order.
    let mut prs: Vec<(StateDecl, StateTransition)> = Vec::new();
    proof {
        assert(pairs_view_of(prs@) =~= spec_all_pairs(mv, 0));
        assert(mv.states.len() == sm.states@.len());
        assert(mv.states_events_mapping.len() == sm.states_events_mapping@.len());
    }
    let mut i: usize = 0;
    while i < sm.states.len()
        invariant
            i <= sm.states.len(),
            mv == sm@,
            sm@.wf(),
            pairs_view_of(prs@) == spec_all_pairs(mv, i as int),
        decreases sm.states.len() - i,
    {
        let mut k: usize = 0;
        let ghost d = mv.states[i as int];
        let ghost rules = mv.states_events_mapping[i as int].rules;
        proof {
            assert(mv.states_events_mapping.len() == sm.states_events_mapping@.len());
            assert(spec_entry_pairs(d, rules, 0) =~= Seq::<(StateDeclView, TransitionView)>::empty());
            assert(pairs_view_of(prs@) =~= spec_all_pairs(mv, i as int) + spec_entry_pairs(d, rules, 0));
        }
        while k < sm.states_events_mapping[i].rules.len()
            invariant
                i < sm.states.len(),
                mv == sm@,
                sm@.wf(),
                k <= sm.states_events_mapping@[i as int].rules.len(),
                d == mv.states[i as int],
                rules == mv.states_events_mapping[i as int].rules,
                rules.len() == sm.states_events_mapping@[i as int].rules@.len(),
                pairs_view_of(prs@) == spec_all_pairs(mv, i as int) + spec_entry_pairs(
                    d,
                    rules,
                    k as int,
                ),
            decreases sm.states_events_mapping@[i as int].rules.len() - k,
        {
            let ghost before = pairs_view_of(prs@);
            let dd = sm.states[i].duplicate();
            let tt = sm.states_events_mapping[i].rules[k].duplicate();
            proof {
                assert(dd@ == d);
                assert(tt@ == sm.states_events_mapping@[i as int].rules@[k as int]@);
                assert(tt@ == rules[k as int]);
            }
            prs.push((dd, tt));
            proof {
                assert(pairs_view_of(prs@) =~= before.push((d, rules[k as int])));
                assert(pairs_view_of(prs@) =~= spec_all_pairs(mv, i as int) + spec_entry_pairs(
                    d,
                    rules,
                    k as int + 1,
                ));
            }
            k = k + 1;
        }
        i = i + 1;
    }
    let ghost ps = spec_all_pairs(mv, mv.states.len() as int);
    proof {
        assert(mv.states.len() == sm.states@.len());
        assert(ps == pairs_view_of(prs@));
        assert(ps.len() == prs@.len());
    }
    // Label boxes.
    let ghost pre_events = out@;
    let mut k: usize = 0;
    while k < prs.len()
        invariant
            k <= prs.len(),
            mv == sm@,
            ps == pairs_view_of(prs@),
            ps.len() == prs@.len(),
            out@ == pre_events + spec_events_block(ps, k as int),
        decreases prs.len() - k,
    {
        proof {
            assert(ps[k as int] == (prs@[k as int].0@, prs@[k as int].1@));
        }
        let idx = u64_string((k as u64) + 1);
        out.append("\t");
        out.append(idx.as_str());
        out.append(" [shape=box label=\"");
        out.append(idx.as_str());
        out.append(": ");
        let lbl = render_label(&prs[k].0, &prs[k].1);
        out.append(lbl.as_str());
        out.append("\"]\n");
        proof {
            assert(out@ =~= pre_events + spec_events_block(ps, k as int + 1));
        }
        k = k + 1;
    }
    out.append("\n");
    // Edges.
    let ghost pre_edges = out@;
    let mut k: usize = 0;
    while k < prs.len()
        invariant
            k <= prs.len(),
            mv == sm@,
            ps == pairs_view_of(prs@),
            ps.len() == prs@.len(),
            out@ == pre_edges + spec_edges_block(mv, ps, k as int),
        decreases prs.len() - k,
    {
        proof {
            assert(ps[k as int] == (prs@[k as int].0@, prs@[k as int].1@));
        }
        out.append("\t\"");
        let e = escape(render_state(&prs[k].0));
        out.append(e.as_str());
        out.append("\" -> \"");
        let outr = match find_state(&sm.states, &prs[k].1.out_state) {
            Some(j) => {
                proof {
                    crate::model::lemma_reg_find(mv.states, prs@[k as int].1.out_state@);
                    assert(mv.states[j as int] == sm.states@[j as int]@);
                }
                render_state(&sm.states[j])
            },
            None => prs[k].1.out_state.clone(),
        };
        proof {
            assert(outr@ == spec_render_out(mv, ps[k as int].1.out_state));
        }
        let eo = escape(outr);
        out.append(eo.as_str());
        out.append("\" [color=blue label=");
        let idx = u64_string((k as u64) + 1);
        out.append(idx.as_str());
        out.append("];\n");
        proof {
            assert(out@ =~= pre_edges + spec_edges_block(mv, ps, k as int + 1));
        }
        k = k + 1;
    }
    out.append("}");
    proof {
        assert(out@ =~= spec_diagram(mv));
    }
    out
}

} // verus!
