//! Raw transition rules: the data produced by the grammar parser and
//! consumed by the semantic model builder.
//!
//! Guards, actions, event patterns and payload expressions are closed
//! little languages over unsigned integer payloads and a single mutable
//! integer context cell, so that dispatch is a total, deterministic
//! function of the current state, the incoming event and the context.

use vstd::prelude::*;

verus! {

/// One value read by a guard, action or payload expression.
#[derive(Clone, Copy, PartialEq, Eq, Structural, Debug)]
pub enum Operand {
    /// An integer literal.
    Lit(u64),
    /// The machine's mutable context cell.
    Ctx,
    /// The payload of the current state (reads as zero on a unit state).
    StatePayload,
    /// The payload of the incoming event (reads as zero when absent).
    EventPayload,
}

/// An integer expression: a single operand, or a wrapping sum of two.
#[derive(Clone, Copy, PartialEq, Eq, Structural, Debug)]
pub enum Expr {
    Operand(Operand),
    Add(Operand, Operand),
}

/// Comparison operator of a guard.
#[derive(Clone, Copy, PartialEq, Eq, Structural, Debug)]
pub enum CmpOp {
    Eq,
    Ne,
    Lt,
    Le,
    Gt,
    Ge,
}

/// A guard: a boolean literal or a comparison of two operands.
#[derive(Clone, Copy, PartialEq, Eq, Structural, Debug)]
pub enum GuardExpr {
    Lit(bool),
    Cmp(CmpOp, Operand, Operand),
}

/// An action: assigns the value of an expression to the context cell.
#[derive(Clone, Copy, PartialEq, Eq, Structural, Debug)]
pub struct ActionStmt {
    pub expr: Expr,
}

/// A destructuring pattern over the incoming event's payload.
#[derive(Clone, Copy, PartialEq, Eq, Structural, Debug)]
pub enum EventPattern {
    /// Matches any present payload.
    Any,
    /// Matches a payload equal to the literal.
    Lit(u64),
}

/// A named state, with or without an integer payload.
#[derive(PartialEq, Eq, Debug)]
pub struct StateDecl {
    pub name: String,
    pub has_payload: bool,
}

/// Mathematical image of a [`StateDecl`].
pub ghost struct StateDeclView {
    pub name: Seq<char>,
    pub has_payload: bool,
}

impl View for StateDecl {
    type V = StateDeclView;

    open spec fn view(&self) -> StateDeclView {
        StateDeclView { name: self.name@, has_payload: self.has_payload }
    }
}

impl StateDecl {
    /// A copy equal to the original.
    pub fn duplicate(&self) -> (r: StateDecl)
        ensures
            r == *self,
    {
        StateDecl { name: self.name.clone(), has_payload: self.has_payload }
    }
}

/// One raw transition rule, as declared in the DSL:
/// `[*] in_state + event [(pattern)] [[guard]] [/ action] = out_state [(expr)]`.
#[derive(PartialEq, Eq, Debug)]
pub struct StateTransition {
    /// True if the rule carries the starting-state marker `*`.
    pub start: bool,
    /// The input state, or `None` for a wildcard rule that applies to
    /// every state.
    pub in_state: Option<StateDecl>,
    /// The event that the rule reacts to.
    pub event: String,
    /// Optional pattern over the event's payload; absent means any payload.
    pub event_pattern: Option<EventPattern>,
    /// Optional guard, evaluated after the pattern matches.
    pub guard: Option<GuardExpr>,
    /// Optional action, executed on a full match.
    pub actions: Option<ActionStmt>,
    /// The destination state's name.
    pub out_state: String,
    /// Optional expression constructing the destination state's payload.
    pub out_state_data_expr: Option<Expr>,
}

/// Mathematical image of a [`StateTransition`].
pub ghost struct TransitionView {
    pub start: bool,
    pub in_state: Option<StateDeclView>,
    pub event: Seq<char>,
    pub event_pattern: Option<EventPattern>,
    pub guard: Option<GuardExpr>,
    pub actions: Option<ActionStmt>,
    pub out_state: Seq<char>,
    pub out_state_data_expr: Option<Expr>,
}

impl View for StateTransition {
    type V = TransitionView;

    open spec fn view(&self) -> TransitionView {
        TransitionView {
            start: self.start,
            in_state: match self.in_state {
                Some(s) => Some(s@),
                None => None,
            },
            event: self.event@,
            event_pattern: self.event_pattern,
            guard: self.guard,
            actions: self.actions,
            out_state: self.out_state@,
            out_state_data_expr: self.out_state_data_expr,
        }
    }
}

impl StateTransition {
    /// A copy equal to the original.
    pub fn duplicate(&self) -> (r: StateTransition)
        ensures
            r == *self,
    {
        StateTransition {
            start: self.start,
            in_state: match &self.in_state {
                Some(s) => Some(s.duplicate()),
                None => None,
            },
            event: self.event.clone(),
            event_pattern: self.event_pattern,
            guard: self.guard,
            actions: self.actions,
            out_state: self.out_state.clone(),
            out_state_data_expr: self.out_state_data_expr,
        }
    }
}

/// The views of a sequence of rules, in order.
pub open spec fn rules_view(s: Seq<StateTransition>) -> Seq<TransitionView> {
    s.map_values(|t: StateTransition| t@)
}

/// The views of a sequence of state declarations, in order.
pub open spec fn decls_view(s: Seq<StateDecl>) -> Seq<StateDeclView> {
    s.map_values(|d: StateDecl| d@)
}

/// The views of a sequence of metadata tags, in order.
pub open spec fn attrs_view(s: Seq<String>) -> Seq<Seq<char>> {
    s.map_values(|t: String| t@)
}

/// The unvalidated output of the grammar parser: explicit rules,
/// wildcard rules, and free-form metadata tags for the generated
/// state type.
#[derive(Debug)]
pub struct StateMachine {
    /// Explicit rules, in declaration order; each names its input state.
    pub transitions: Vec<StateTransition>,
    /// Wildcard rules, in declaration order; their `in_state` is ignored.
    pub wildcards: Vec<StateTransition>,
    /// Metadata tags, in declaration order; cosmetic only.
    pub states_attrs: Vec<String>,
}

/// Mathematical image of a [`StateMachine`].
pub ghost struct StateMachineView {
    pub transitions: Seq<TransitionView>,
    pub wildcards: Seq<TransitionView>,
    pub states_attrs: Seq<Seq<char>>,
}

impl View for StateMachine {
    type V = StateMachineView;

    open spec fn view(&self) -> StateMachineView {
        StateMachineView {
            transitions: rules_view(self.transitions@),
            wildcards: rules_view(self.wildcards@),
            states_attrs: attrs_view(self.states_attrs@),
        }
    }
}

impl StateMachineView {
    /// Every explicit rule names its input state: the parser routes the
    /// wildcard rules to their own list.
    pub open spec fn wf(self) -> bool {
        forall|i: int| 0 <= i < self.transitions.len() ==> self.transitions[i].in_state is Some
    }
}

impl StateMachine {
    /// An empty rule set.
    pub fn new() -> (r: StateMachine)
        ensures
            r@.transitions == Seq::<TransitionView>::empty(),
            r@.wildcards == Seq::<TransitionView>::empty(),
            r@.states_attrs == Seq::<Seq<char>>::empty(),
            r@.wf(),
    {
        let r = StateMachine { transitions: Vec::new(), wildcards: Vec::new(), states_attrs: Vec::new() };
        proof {
            assert(r@.transitions =~= Seq::<TransitionView>::empty());
            assert(r@.wildcards =~= Seq::<TransitionView>::empty());
            assert(r@.states_attrs =~= Seq::<Seq<char>>::empty());
        }
        r
    }

    /// Appends an explicit rule.
    pub fn add_transition(&mut self, transition: StateTransition)
        requires
            transition@.in_state is Some,
        ensures
            final(self)@.transitions == old(self)@.transitions.push(transition@),
            final(self)@.wildcards == old(self)@.wildcards,
            final(self)@.states_attrs == old(self)@.states_attrs,
            old(self)@.wf() ==> final(self)@.wf(),
    {
        self.transitions.push(transition);
        proof {
            assert(self@.transitions =~= old(self)@.transitions.push(transition@));
        }
    }

    /// Appends a wildcard rule.
    pub fn add_wildcard(&mut self, transition: StateTransition)
        ensures
            final(self)@.wildcards == old(self)@.wildcards.push(transition@),
            final(self)@.transitions == old(self)@.transitions,
            final(self)@.states_attrs == old(self)@.states_attrs,
            old(self)@.wf() ==> final(self)@.wf(),
    {
        self.wildcards.push(transition);
        proof {
            assert(self@.wildcards =~= old(self)@.wildcards.push(transition@));
        }
    }

    /// Appends metadata tags, keeping the order given.
    pub fn add_state_attrs(&mut self, attrs: Vec<String>)
        ensures
            final(self)@.states_attrs == old(self)@.states_attrs + attrs_view(attrs@),
            final(self)@.transitions == old(self)@.transitions,
            final(self)@.wildcards == old(self)@.wildcards,
            old(self)@.wf() ==> final(self)@.wf(),
    {
        let ghost given = attrs@;
        let mut attrs = attrs;
        self.states_attrs.append(&mut attrs);
        proof {
            assert(self@.states_attrs =~= old(self)@.states_attrs + attrs_view(given));
        }
    }
}

} // verus!
