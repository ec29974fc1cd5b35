//! The execution engine: a running machine instance that advances its
//! current state in response to events, under the dispatch contract.
//!
//! Dispatch looks up the current state's ordered rule list and takes
//! the first rule that fully matches: the event name is equal, the
//! pattern (if any) accepts the event payload, and the guard (if any)
//! passes.  A failed guard continues the scan with the next rule; it
//! does not abort the dispatch.  On a full match the action runs, the
//! destination payload is computed, and the machine moves; when no rule
//! fully matches, the machine reports a no-match and stays unchanged.

use vstd::prelude::*;
use crate::ast::CmpOp;
use crate::ast::EventPattern;
use crate::ast::Expr;
use crate::ast::GuardExpr;
use crate::ast::Operand;
use crate::ast::StateTransition;
use crate::ast::TransitionView;
use crate::ast::rules_view;
use crate::model::ParsedStateMachine;
use crate::model::ParsedStateMachineView;
use crate::model::find_state;
use crate::model::lemma_reg_find;
use crate::model::reg_decl;
use crate::model::reg_find;
use crate::model::rule_wf_in;

verus! {

/// A running state: the state's name and its payload, if any.
#[derive(Debug, PartialEq, Eq)]
pub struct StateValue {
    pub name: String,
    pub payload: Option<u64>,
}

/// Mathematical image of a [`StateValue`].
pub ghost struct StateValueView {
    pub name: Seq<char>,
    pub payload: Option<u64>,
}

impl View for StateValue {
    type V = StateValueView;

    open spec fn view(&self) -> StateValueView {
        StateValueView { name: self.name@, payload: self.payload }
    }
}

impl StateValue {
    /// A copy equal to the original.
    pub fn duplicate(&self) -> (r: StateValue)
        ensures
            r == *self,
    {
        StateValue { name: self.name.clone(), payload: self.payload }
    }
}

/// An incoming event: the event's name and its payload, if any.
#[derive(Debug, PartialEq, Eq)]
pub struct EventValue {
    pub name: String,
    pub payload: Option<u64>,
}

/// Mathematical image of an [`EventValue`].
pub ghost struct EventValueView {
    pub name: Seq<char>,
    pub payload: Option<u64>,
}

impl View for EventValue {
    type V = EventValueView;

    open spec fn view(&self) -> EventValueView {
        EventValueView { name: self.name@, payload: self.payload }
    }
}

/// Value of one operand under the bound state payload, event payload
/// and context; a payload reference reads as zero where no payload is
/// present.
pub open spec fn operand_value(o: Operand, sp: Option<u64>, ep: Option<u64>, ctx: u64) -> u64 {
    match o {
        Operand::Lit(n) => n,
        Operand::Ctx => ctx,
        Operand::StatePayload => match sp {
            Some(v) => v,
            None => 0,
        },
        Operand::EventPayload => match ep {
            Some(v) => v,
            None => 0,
        },
    }
}

/// Value of an expression; the sum wraps around on overflow.
pub open spec fn expr_value(e: Expr, sp: Option<u64>, ep: Option<u64>, ctx: u64) -> u64 {
    match e {
        Expr::Operand(o) => operand_value(o, sp, ep, ctx),
        Expr::Add(a, b) => vstd::wrapping::u64_specs::wrapping_add(
            operand_value(a, sp, ep, ctx),
            operand_value(b, sp, ep, ctx),
        ),
    }
}

/// Whether a pattern accepts the event payload: an absent pattern
/// accepts anything, the binding pattern accepts any present payload,
/// and a literal pattern accepts exactly that payload.
pub open spec fn pattern_matches(p: Option<EventPattern>, ep: Option<u64>) -> bool {
    match p {
        None => true,
        Some(EventPattern::Any) => ep is Some,
        Some(EventPattern::Lit(n)) => ep == Some(n),
    }
}

/// Whether a guard passes; an absent guard always passes.
pub open spec fn guard_passes(
    g: Option<GuardExpr>,
    sp: Option<u64>,
    ep: Option<u64>,
    ctx: u64,
) -> bool {
    match g {
        None => true,
        Some(GuardExpr::Lit(b)) => b,
        Some(GuardExpr::Cmp(op, a, b)) => {
            let x = operand_value(a, sp, ep, ctx);
            let y = operand_value(b, sp, ep, ctx);
            match op {
                CmpOp::Eq => x == y,
                CmpOp::Ne => x != y,
                CmpOp::Lt => x < y,
                CmpOp::Le => x <= y,
                CmpOp::Gt => x > y,
                CmpOp::Ge => x >= y,
            }
        },
    }
}

/// Whether a rule fully matches: equal event name, accepting pattern,
/// passing guard.
pub open spec fn rule_applies(
    r: TransitionView,
    ename: Seq<char>,
    ep: Option<u64>,
    sp: Option<u64>,
    ctx: u64,
) -> bool {
    &&& r.event == ename
    &&& pattern_matches(r.event_pattern, ep)
    &&& guard_passes(r.guard, sp, ep, ctx)
}

/// Index of the first fully matching rule in a dispatch list.
pub open spec fn first_match(
    rules: Seq<TransitionView>,
    ename: Seq<char>,
    ep: Option<u64>,
    sp: Option<u64>,
    ctx: u64,
) -> Option<int>
    decreases rules.len(),
{
    if rules.len() == 0 {
        None
    } else if rule_applies(rules[0], ename, ep, sp, ctx) {
        Some(0int)
    } else {
        match first_match(rules.drop_first(), ename, ep, sp, ctx) {
            Some(i) => Some(i + 1),
            None => None,
        }
    }
}

/// `first_match` returns the first fully matching index, and `None`
/// exactly when no rule fully matches.
pub proof fn lemma_first_match(
    rules: Seq<TransitionView>,
    ename: Seq<char>,
    ep: Option<u64>,
    sp: Option<u64>,
    ctx: u64,
)
    ensures
        match first_match(rules, ename, ep, sp, ctx) {
            Some(i) => 0 <= i < rules.len() && rule_applies(rules[i], ename, ep, sp, ctx)
                && (forall|j: int| 0 <= j < i ==> !rule_applies(rules[j], ename, ep, sp, ctx)),
            None => forall|j: int|
                0 <= j < rules.len() ==> !rule_applies(rules[j], ename, ep, sp, ctx),
        },
    decreases rules.len(),
{
    if rules.len() > 0 && !rule_applies(rules[0], ename, ep, sp, ctx) {
        lemma_first_match(rules.drop_first(), ename, ep, sp, ctx);
        assert(forall|j: int| 1 <= j < rules.len() ==> rules[j] == rules.drop_first()[j - 1]);
    }
}

/// The context after a matched rule's action; an absent action leaves
/// the context unchanged.
pub open spec fn context_after(r: TransitionView, sp: Option<u64>, ep: Option<u64>, ctx: u64) -> u64 {
    match r.actions {
        Some(a) => expr_value(a.expr, sp, ep, ctx),
        None => ctx,
    }
}

/// The destination payload of a matched rule: for a payload-carrying
/// destination, the construction expression's value over the old state
/// payload, the event payload and the updated context (zero where a
/// malformed model supplies no expression); a unit destination carries
/// none.
pub open spec fn payload_after(
    m: ParsedStateMachineView,
    r: TransitionView,
    sp: Option<u64>,
    ep: Option<u64>,
    ctx2: u64,
) -> Option<u64> {
    if reg_find(m.states, r.out_state) is Some && reg_decl(m.states, r.out_state).has_payload {
        match r.out_state_data_expr {
            Some(e) => Some(expr_value(e, sp, ep, ctx2)),
            None => Some(0u64),
        }
    } else {
        None
    }
}

/// What one dispatch produces: the destination state's name and
/// payload, and the context after the action.
pub ghost struct DispatchOutcome {
    pub name: Seq<char>,
    pub payload: Option<u64>,
    pub context: u64,
}

/// The dispatch function: the outcome of delivering the event `e` to a
/// machine whose model is `m`, current state `s` and context `ctx`, or
/// `None` when the state is unknown or no rule fully matches.
pub open spec fn dispatch(
    m: ParsedStateMachineView,
    s: StateValueView,
    ctx: u64,
    e: EventValueView,
) -> Option<DispatchOutcome> {
    match reg_find(m.states, s.name) {
        None => None,
        Some(i) => {
            let rules = m.states_events_mapping[i].rules;
            match first_match(rules, e.name, e.payload, s.payload, ctx) {
                None => None,
                Some(k) => {
                    let r = rules[k];
                    let ctx2 = context_after(r, s.payload, e.payload, ctx);
                    Some(
                        DispatchOutcome {
                            name: r.out_state,
                            payload: payload_after(m, r, s.payload, e.payload, ctx2),
                            context: ctx2,
                        },
                    )
                },
            }
        },
    }
}

/// Dispatch determinism: the outcome is a pure function of the model,
/// the current state, the context and the event value, so repeated
/// deliveries from an unchanged situation always produce the same
/// outcome; there is no hidden nondeterminism.  In particular, a
/// no-match leaves the machine unchanged, so delivering the same event
/// again is again the same no-match.
pub proof fn lemma_dispatch_deterministic(
    m: ParsedStateMachineView,
    s1: StateValueView,
    s2: StateValueView,
    ctx1: u64,
    ctx2: u64,
    e1: EventValueView,
    e2: EventValueView,
)
    requires
        s1 == s2,
        ctx1 == ctx2,
        e1 == e2,
    ensures
        dispatch(m, s1, ctx1, e1) == dispatch(m, s2, ctx2, e2),
{
}

/// Evaluates one operand.
fn operand_exec(o: Operand, sp: Option<u64>, ep: Option<u64>, ctx: u64) -> (v: u64)
    ensures
        v == operand_value(o, sp, ep, ctx),
{
    match o {
        Operand::Lit(n) => n,
        Operand::Ctx => ctx,
        Operand::StatePayload => match sp {
            Some(v) => v,
            None => 0,
        },
        Operand::EventPayload => match ep {
            Some(v) => v,
            None => 0,
        },
    }
}

/// Evaluates one expression, wrapping on overflow.
fn expr_exec(e: Expr, sp: Option<u64>, ep: Option<u64>, ctx: u64) -> (v: u64)
    ensures
        v == expr_value(e, sp, ep, ctx),
{
    match e {
        Expr::Operand(o) => operand_exec(o, sp, ep, ctx),
        Expr::Add(a, b) => {
            let x = operand_exec(a, sp, ep, ctx);
            let y = operand_exec(b, sp, ep, ctx);
            x.wrapping_add(y)
        },
    }
}

/// Decides whether one rule fully matches the event in the given
/// situation.
fn rule_applies_exec(
    t: &StateTransition,
    ename: &String,
    ep: Option<u64>,
    sp: Option<u64>,
    ctx: u64,
) -> (b: bool)
    ensures
        b == rule_applies(t@, ename@, ep, sp, ctx),
{
    if !(t.event == *ename) {
        return false;
    }
    let pat_ok = match (t.event_pattern, ep) {
        (None, _) => true,
        (Some(EventPattern::Any), Some(_)) => true,
        (Some(EventPattern::Any), None) => false,
        (Some(EventPattern::Lit(n)), Some(v)) => n == v,
        (Some(EventPattern::Lit(_)), None) => false,
    };
    if !pat_ok {
        return false;
    }
    match t.guard {
        None => true,
        Some(GuardExpr::Lit(b)) => b,
        Some(GuardExpr::Cmp(op, a, b)) => {
            let x = operand_exec(a, sp, ep, ctx);
            let y = operand_exec(b, sp, ep, ctx);
            match op {
                CmpOp::Eq => x == y,
                CmpOp::Ne => x != y,
                CmpOp::Lt => x < y,
                CmpOp::Le => x <= y,
                CmpOp::Gt => x > y,
                CmpOp::Ge => x >= y,
            }
        },
    }
}

/// Scans a dispatch list for the first fully matching rule.
fn find_match(
    rules: &Vec<StateTransition>,
    ename: &String,
    ep: Option<u64>,
    sp: Option<u64>,
    ctx: u64,
) -> (r: Option<usize>)
    ensures
        match r {
            Some(i) => first_match(rules_view(rules@), ename@, ep, sp, ctx) == Some(i as int),
            None => first_match(rules_view(rules@), ename@, ep, sp, ctx) is None,
        },
{
    let ghost rv = rules_view(rules@);
    let mut i: usize = 0;
    while i < rules.len()
        invariant
            i <= rules.len(),
            rv == rules_view(rules@),
            forall|j: int| 0 <= j < i ==> !rule_applies(rv[j], ename@, ep, sp, ctx),
        decreases rules.len() - i,
    {
        proof {
            assert(rv[i as int] == rules@[i as int]@);
        }
        if rule_applies_exec(&rules[i], ename, ep, sp, ctx) {
            proof {
                lemma_first_match(rv, ename@, ep, sp, ctx);
            }
            return Some(i);
        }
        i = i + 1;
    }
    proof {
        lemma_first_match(rv, ename@, ep, sp, ctx);
    }
    None
}

/// A running state machine instance: the immutable semantic model, the
/// mutable current state and the engine-owned mutable context cell.
#[derive(Debug)]
pub struct Machine {
    sm: ParsedStateMachine,
    state: StateValue,
    context: u64,
}

/// Mathematical image of a [`Machine`].
pub ghost struct MachineView {
    pub sm: ParsedStateMachineView,
    pub state: StateValueView,
    pub context: u64,
}

impl View for Machine {
    type V = MachineView;

    closed spec fn view(&self) -> MachineView {
        MachineView { sm: self.sm@, state: self.state@, context: self.context }
    }
}

impl Machine {
    /// Creates a machine in the model's starting state; a
    /// payload-carrying starting state begins with the zero payload.
    pub fn new(sm: ParsedStateMachine, context: u64) -> (r: Machine)
        ensures
            r@.sm == sm@,
            r@.context == context,
            r@.state.name == sm@.starting_state.name,
            r@.state.payload == (if sm@.starting_state.has_payload {
                Some(0u64)
            } else {
                None::<u64>
            }),
    {
        let payload = if sm.starting_state.has_payload {
            Some(0u64)
        } else {
            None
        };
        let state = StateValue { name: sm.starting_state.name.clone(), payload };
        Machine { sm, state, context }
    }

    /// Creates a machine resuming from a caller-supplied state, for
    /// example one restored from persistence.
    pub fn new_with_state(sm: ParsedStateMachine, context: u64, initial_state: StateValue) -> (r:
        Machine)
        ensures
            r@.sm == sm@,
            r@.context == context,
            r@.state == initial_state@,
    {
        Machine { sm, state: initial_state, context }
    }

    /// The current state.
    pub fn state(&self) -> (r: &StateValue)
        ensures
            r@ == self@.state,
    {
        &self.state
    }

    /// The context.
    pub fn context(&self) -> (r: &u64)
        ensures
            *r == self@.context,
    {
        &self.context
    }

    /// The context, mutable.
    pub fn context_mut(&mut self) -> (r: &mut u64)
        ensures
            *r == old(self)@.context,
            final(self)@.sm == old(self)@.sm,
            final(self)@.state == old(self)@.state,
            final(self)@.context == *final(r),
    {
        &mut self.context
    }

    /// Delivers one event.  Returns the new state on a successful
    /// transition, or `None` when no rule fully matches, in which case
    /// the state and the context are unchanged.  The behaviour is
    /// exactly the [`dispatch`] function of the machine's model,
    /// current state, context and the event value.
    pub fn process_event(&mut self, event: &EventValue) -> (r: Option<StateValue>)
        requires
            old(self)@.sm.wf(),
        ensures
            final(self)@.sm == old(self)@.sm,
            match dispatch(old(self)@.sm, old(self)@.state, old(self)@.context, event@) {
                None => {
                    &&& r is None
                    &&& final(self)@.state == old(self)@.state
                    &&& final(self)@.context == old(self)@.context
                },
                Some(o) => {
                    &&& r matches Some(ns) && ns@.name == o.name && ns@.payload == o.payload
                    &&& final(self)@.state.name == o.name
                    &&& final(self)@.state.payload == o.payload
                    &&& final(self)@.context == o.context
                },
            },
    {
        let ghost mv = self.sm@;
        let ghost s0 = self.state@;
        let ghost c0 = self.context;
        let sp = self.state.payload;
        let ctx0 = self.context;
        let entry_idx = match find_state(&self.sm.states, &self.state.name) {
            Some(i) => i,
            None => {
                return None;
            },
        };
        proof {
            lemma_reg_find(mv.states, s0.name);
        }
        let ghost rules = mv.states_events_mapping[entry_idx as int].rules;
        let mi = match find_match(
            &self.sm.states_events_mapping[entry_idx].rules,
            &event.name,
            event.payload,
            sp,
            ctx0,
        ) {
            Some(i) => i,
            None => {
                return None;
            },
        };
        proof {
            lemma_first_match(rules, event@.name, event@.payload, sp, ctx0);
        }
        let t = &self.sm.states_events_mapping[entry_idx].rules[mi];
        let actions = t.actions;
        let out_expr = t.out_state_data_expr;
        let out_name = t.out_state.clone();
        let ghost rv = rules[mi as int];
        proof {
            assert(rv == t@);
            assert(rule_wf_in(mv.states, rv));
        }
        let ctx2 = match actions {
            Some(a) => expr_exec(a.expr, sp, event.payload, ctx0),
            None => ctx0,
        };
        self.context = ctx2;
        let dj = match find_state(&self.sm.states, &out_name) {
            Some(j) => j,
            None => vstd::pervasive::unreached(),
        };
        proof {
            lemma_reg_find(mv.states, out_name@);
        }
        let has_p = self.sm.states[dj].has_payload;
        proof {
            assert(mv.states[dj as int] == self.sm.states@[dj as int]@);
            assert(has_p == reg_decl(mv.states, rv.out_state).has_payload);
        }
        let payload = if has_p {
            match out_expr {
                Some(e) => Some(expr_exec(e, sp, event.payload, ctx2)),
                None => Some(0u64),
            }
        } else {
            None
        };
        self.state = StateValue { name: out_name, payload };
        let result = self.state.duplicate();
        Some(result)
    }
}

} // verus!
