//! The semantic model builder: validates a raw rule list and assembles
//! the state registry and the per-state ordered dispatch lists.
//!
//! Registration order and dispatch order are both significant and are
//! pinned exactly by the contracts: a state's dispatch list holds the
//! explicit rules that name it, in declaration order, followed by every
//! wildcard rule, in declaration order.

use vstd::prelude::*;
use crate::ast::StateDecl;
use crate::ast::StateDeclView;
use crate::ast::StateMachine;
use crate::ast::StateMachineView;
use crate::ast::StateTransition;
use crate::ast::TransitionView;
use crate::ast::attrs_view;
use crate::ast::decls_view;
use crate::ast::rules_view;
use vstd::pervasive::VecAdditionalExecFns;

verus! {

/// A state's name together with its ordered dispatch list.
#[derive(Debug)]
pub struct DispatchEntry {
    pub state: String,
    pub rules: Vec<StateTransition>,
}

/// Mathematical image of a [`DispatchEntry`].
pub ghost struct DispatchEntryView {
    pub state: Seq<char>,
    pub rules: Seq<TransitionView>,
}

impl View for DispatchEntry {
    type V = DispatchEntryView;

    open spec fn view(&self) -> DispatchEntryView {
        DispatchEntryView { state: self.state@, rules: rules_view(self.rules@) }
    }
}

/// The ways a rule list can fail validation.
#[derive(Debug, PartialEq, Eq)]
pub enum ModelError {
    /// No rule carries the starting-state marker.
    NoStartingState,
    /// More than one rule carries the starting-state marker.
    MultipleStartingStates,
    /// The named destination state carries a payload, but the rule
    /// supplies no expression to construct it.
    MissingPayloadConstructor(String),
}

/// Mathematical image of a [`ModelError`].
pub ghost enum ModelErrorView {
    NoStartingState,
    MultipleStartingStates,
    MissingPayloadConstructor(Seq<char>),
}

impl View for ModelError {
    type V = ModelErrorView;

    open spec fn view(&self) -> ModelErrorView {
        match self {
            ModelError::NoStartingState => ModelErrorView::NoStartingState,
            ModelError::MultipleStartingStates => ModelErrorView::MultipleStartingStates,
            ModelError::MissingPayloadConstructor(s) => ModelErrorView::MissingPayloadConstructor(
                s@,
            ),
        }
    }
}

impl ModelError {
    /// The fixed human-readable message for this error.
    pub fn message(&self) -> (r: String)
        ensures
            self@ is NoStartingState ==> r@
                == "No starting state defined, indicate the starting state with a marker."@,
            self@ is MultipleStartingStates ==> r@
                == "More than one starting state defined, remove duplicates."@,
            self@ is MissingPayloadConstructor ==> r@
                == "This state has data associated, but no action/expression is defined here to provide it."@,
    {
        match self {
            ModelError::NoStartingState => String::from_str(
                "No starting state defined, indicate the starting state with a marker.",
            ),
            ModelError::MultipleStartingStates => String::from_str(
                "More than one starting state defined, remove duplicates.",
            ),
            ModelError::MissingPayloadConstructor(_) => String::from_str(
                "This state has data associated, but no action/expression is defined here to provide it.",
            ),
        }
    }
}

/// The validated semantic model: the starting state, the state registry
/// in registration order, and one dispatch list per registered state.
#[derive(Debug)]
pub struct ParsedStateMachine {
    /// The input state of the unique start-marked rule, as written there.
    pub starting_state: StateDecl,
    /// Every state mentioned as an input or output, in registration order.
    pub states: Vec<StateDecl>,
    /// One dispatch list per state, aligned with `states`.
    pub states_events_mapping: Vec<DispatchEntry>,
    /// The metadata tags, passed through untouched.
    pub states_attrs: Vec<String>,
}

/// The views of a sequence of dispatch entries, in order.
pub open spec fn entries_view(s: Seq<DispatchEntry>) -> Seq<DispatchEntryView> {
    s.map_values(|e: DispatchEntry| e@)
}

/// Mathematical image of a [`ParsedStateMachine`].
pub ghost struct ParsedStateMachineView {
    pub starting_state: StateDeclView,
    pub states: Seq<StateDeclView>,
    pub states_events_mapping: Seq<DispatchEntryView>,
    pub states_attrs: Seq<Seq<char>>,
}

impl View for ParsedStateMachine {
    type V = ParsedStateMachineView;

    open spec fn view(&self) -> ParsedStateMachineView {
        ParsedStateMachineView {
            starting_state: self.starting_state@,
            states: decls_view(self.states@),
            states_events_mapping: entries_view(self.states_events_mapping@),
            states_attrs: attrs_view(self.states_attrs@),
        }
    }
}

/// Index of the first registered state carrying `name`, if any.
pub open spec fn reg_find(reg: Seq<StateDeclView>, name: Seq<char>) -> Option<int>
    decreases reg.len(),
{
    if reg.len() == 0 {
        None
    } else if reg[0].name == name {
        Some(0int)
    } else {
        match reg_find(reg.drop_first(), name) {
            Some(i) => Some(i + 1),
            None => None,
        }
    }
}

/// The registered state carrying `name`.
pub open spec fn reg_decl(reg: Seq<StateDeclView>, name: Seq<char>) -> StateDeclView
    recommends
        reg_find(reg, name) is Some,
{
    reg[reg_find(reg, name).unwrap()]
}

/// `reg_find` returns the first index whose name matches, and `None`
/// exactly when no name matches.
pub proof fn lemma_reg_find(reg: Seq<StateDeclView>, name: Seq<char>)
    ensures
        match reg_find(reg, name) {
            Some(i) => 0 <= i < reg.len() && reg[i].name == name && (forall|j: int|
                0 <= j < i ==> reg[j].name != name),
            None => forall|j: int| 0 <= j < reg.len() ==> reg[j].name != name,
        },
    decreases reg.len(),
{
    if reg.len() > 0 && reg[0].name != name {
        lemma_reg_find(reg.drop_first(), name);
        assert(forall|j: int| 1 <= j < reg.len() ==> reg[j] == reg.drop_first()[j - 1]);
    }
}

/// No two registered states share a name.
pub open spec fn reg_unique(reg: Seq<StateDeclView>) -> bool {
    forall|i: int, j: int| 0 <= i < j < reg.len() ==> reg[i].name != reg[j].name
}

/// Number of start-marked rules in the list.
pub open spec fn start_count(rs: Seq<TransitionView>) -> int
    decreases rs.len(),
{
    if rs.len() == 0 {
        0
    } else {
        start_count(rs.drop_last()) + (if rs.last().start {
            1int
        } else {
            0int
        })
    }
}

/// Index of the first start-marked rule, if any.
pub open spec fn start_find(rs: Seq<TransitionView>) -> Option<int>
    decreases rs.len(),
{
    if rs.len() == 0 {
        None
    } else if rs[0].start {
        Some(0int)
    } else {
        match start_find(rs.drop_first()) {
            Some(i) => Some(i + 1),
            None => None,
        }
    }
}

/// `start_find` returns the first start-marked index, and `None` exactly
/// when no rule is start-marked.
pub proof fn lemma_start_find(rs: Seq<TransitionView>)
    ensures
        match start_find(rs) {
            Some(i) => 0 <= i < rs.len() && rs[i].start && (forall|j: int|
                0 <= j < i ==> !rs[j].start),
            None => forall|j: int| 0 <= j < rs.len() ==> !rs[j].start,
        },
    decreases rs.len(),
{
    if rs.len() > 0 && !rs[0].start {
        lemma_start_find(rs.drop_first());
        assert(forall|j: int| 1 <= j < rs.len() ==> rs[j] == rs.drop_first()[j - 1]);
    }
}

/// A list with no start-marked rule counts zero starts.
pub proof fn lemma_no_start_count(rs: Seq<TransitionView>)
    requires
        forall|j: int| 0 <= j < rs.len() ==> !rs[j].start,
    ensures
        start_count(rs) == 0,
    decreases rs.len(),
{
    if rs.len() > 0 {
        assert(forall|j: int| 0 <= j < rs.len() - 1 ==> rs.drop_last()[j] == rs[j]);
        lemma_no_start_count(rs.drop_last());
    }
}

/// Registers an input state, overwriting the payload type of an earlier
/// registration of the same name (the last declaration wins), and
/// keeping the original registration position.
pub open spec fn upsert_state(reg: Seq<StateDeclView>, d: StateDeclView) -> Seq<StateDeclView> {
    match reg_find(reg, d.name) {
        Some(i) => reg.update(i, d),
        None => reg.push(d),
    }
}

/// Registers a destination state as a placeholder if it is not yet
/// known; a destination mentioned only as an output carries a payload
/// exactly when some rule constructs one for it at that first mention.
pub open spec fn add_placeholder(
    reg: Seq<StateDeclView>,
    name: Seq<char>,
    has_payload: bool,
) -> Seq<StateDeclView> {
    if reg_find(reg, name) is Some {
        reg
    } else {
        reg.push(StateDeclView { name, has_payload })
    }
}

/// The registry change made by one explicit rule: register its input
/// state, then its destination placeholder.
pub open spec fn register_step(reg: Seq<StateDeclView>, r: TransitionView) -> Seq<StateDeclView> {
    add_placeholder(upsert_state(reg, r.in_state.unwrap()), r.out_state, r.out_state_data_expr is Some)
}

/// Folds `register_step` over the explicit rules, in declaration order.
pub open spec fn register_explicit(
    reg: Seq<StateDeclView>,
    rs: Seq<TransitionView>,
) -> Seq<StateDeclView>
    decreases rs.len(),
{
    if rs.len() == 0 {
        reg
    } else {
        register_explicit(register_step(reg, rs[0]), rs.drop_first())
    }
}

/// Registers the destination placeholders of the wildcard rules, in
/// declaration order.
pub open spec fn register_wildcards(
    reg: Seq<StateDeclView>,
    ws: Seq<TransitionView>,
) -> Seq<StateDeclView>
    decreases ws.len(),
{
    if ws.len() == 0 {
        reg
    } else {
        register_wildcards(
            add_placeholder(reg, ws[0].out_state, ws[0].out_state_data_expr is Some),
            ws.drop_first(),
        )
    }
}

/// The full state registry of a rule set, in registration order.
pub open spec fn model_states(sm: StateMachineView) -> Seq<StateDeclView> {
    register_wildcards(register_explicit(Seq::empty(), sm.transitions), sm.wildcards)
}

/// True when the rule names `name` as its input state.
pub open spec fn rule_names_state(r: TransitionView, name: Seq<char>) -> bool {
    match r.in_state {
        Some(d) => d.name == name,
        None => false,
    }
}

/// The explicit rules that name `name` as their input state, in
/// declaration order.
pub open spec fn explicit_for(rs: Seq<TransitionView>, name: Seq<char>) -> Seq<TransitionView>
    decreases rs.len(),
{
    if rs.len() == 0 {
        Seq::empty()
    } else {
        explicit_for(rs.drop_last(), name) + (if rule_names_state(rs.last(), name) {
            seq![rs.last()]
        } else {
            Seq::empty()
        })
    }
}

/// The rule's destination state carries a payload that the rule does
/// not construct.
pub open spec fn missing_payload(reg: Seq<StateDeclView>, r: TransitionView) -> bool {
    &&& reg_find(reg, r.out_state) is Some
    &&& reg_decl(reg, r.out_state).has_payload
    &&& r.out_state_data_expr is None
}

/// Index of the first rule whose destination payload is missing, if any.
pub open spec fn missing_find(reg: Seq<StateDeclView>, rs: Seq<TransitionView>) -> Option<int>
    decreases rs.len(),
{
    if rs.len() == 0 {
        None
    } else if missing_payload(reg, rs[0]) {
        Some(0int)
    } else {
        match missing_find(reg, rs.drop_first()) {
            Some(i) => Some(i + 1),
            None => None,
        }
    }
}

/// `missing_find` returns the first offending index, and `None` exactly
/// when every rule constructs the payload its destination needs.
pub proof fn lemma_missing_find(reg: Seq<StateDeclView>, rs: Seq<TransitionView>)
    ensures
        match missing_find(reg, rs) {
            Some(i) => 0 <= i < rs.len() && missing_payload(reg, rs[i]) && (forall|j: int|
                0 <= j < i ==> !missing_payload(reg, rs[j])),
            None => forall|j: int| 0 <= j < rs.len() ==> !missing_payload(reg, rs[j]),
        },
    decreases rs.len(),
{
    if rs.len() > 0 && !missing_payload(reg, rs[0]) {
        lemma_missing_find(reg, rs.drop_first());
        assert(forall|j: int| 1 <= j < rs.len() ==> rs[j] == rs.drop_first()[j - 1]);
    }
}

/// The validation stated by step four of the build: over the final
/// registry, no rule's destination payload is missing; when one is, the
/// first offender, explicit rules before wildcards.
pub open spec fn model_missing(sm: StateMachineView) -> Option<int> {
    missing_find(model_states(sm), sm.transitions + sm.wildcards)
}

/// How a pushed state moves `reg_find`: an existing name keeps its
/// index; a fresh name is found at the end exactly when it is the one
/// pushed.
pub proof fn lemma_reg_find_push(reg: Seq<StateDeclView>, x: StateDeclView, n: Seq<char>)
    ensures
        reg_find(reg.push(x), n) == (match reg_find(reg, n) {
            Some(i) => Some(i),
            None => if x.name == n {
                Some(reg.len() as int)
            } else {
                None::<int>
            },
        }),
    decreases reg.len(),
{
    if reg.len() == 0 {
        assert(reg.push(x)[0] == x);
        assert(reg.push(x).drop_first() =~= Seq::<StateDeclView>::empty());
    } else {
        assert(reg.push(x)[0] == reg[0]);
        assert(reg.push(x).drop_first() =~= reg.drop_first().push(x));
        lemma_reg_find_push(reg.drop_first(), x, n);
    }
}

/// Updating an entry with one of the same name leaves `reg_find`
/// unchanged for every name.
pub proof fn lemma_reg_find_update(reg: Seq<StateDeclView>, i: int, d: StateDeclView, n: Seq<char>)
    requires
        0 <= i < reg.len(),
        reg[i].name == d.name,
    ensures
        reg_find(reg.update(i, d), n) == reg_find(reg, n),
    decreases reg.len(),
{
    if i == 0 {
        assert(reg.update(0, d)[0].name == reg[0].name);
        assert(reg.update(0, d).drop_first() =~= reg.drop_first());
    } else {
        assert(reg.update(i, d)[0] == reg[0]);
        assert(reg.update(i, d).drop_first() =~= reg.drop_first().update(i - 1, d));
        lemma_reg_find_update(reg.drop_first(), i - 1, d, n);
    }
}

/// One registration step never removes a name from the registry.
pub proof fn lemma_register_step_mono(reg: Seq<StateDeclView>, r: TransitionView, n: Seq<char>)
    requires
        reg_find(reg, n) is Some,
    ensures
        reg_find(register_step(reg, r), n) is Some,
{
    let d = r.in_state.unwrap();
    let reg1 = upsert_state(reg, d);
    match reg_find(reg, d.name) {
        Some(i) => {
            lemma_reg_find(reg, d.name);
            lemma_reg_find_update(reg, i, d, n);
        },
        None => {
            lemma_reg_find_push(reg, d, n);
        },
    }
    if reg_find(reg1, r.out_state) is None {
        lemma_reg_find_push(
            reg1,
            StateDeclView { name: r.out_state, has_payload: r.out_state_data_expr is Some },
            n,
        );
    }
}

/// A wildcard placeholder never removes a name from the registry.
pub proof fn lemma_placeholder_mono(
    reg: Seq<StateDeclView>,
    name: Seq<char>,
    has_payload: bool,
    n: Seq<char>,
)
    requires
        reg_find(reg, n) is Some,
    ensures
        reg_find(add_placeholder(reg, name, has_payload), n) is Some,
{
    if reg_find(reg, name) is None {
        lemma_reg_find_push(reg, StateDeclView { name, has_payload }, n);
    }
}

/// Registering explicit rules never removes a name from the registry.
pub proof fn lemma_register_explicit_mono(
    reg: Seq<StateDeclView>,
    rs: Seq<TransitionView>,
    n: Seq<char>,
)
    requires
        reg_find(reg, n) is Some,
    ensures
        reg_find(register_explicit(reg, rs), n) is Some,
    decreases rs.len(),
{
    if rs.len() > 0 {
        lemma_register_step_mono(reg, rs[0], n);
        lemma_register_explicit_mono(register_step(reg, rs[0]), rs.drop_first(), n);
    }
}

/// Registering wildcard placeholders never removes a name.
pub proof fn lemma_register_wildcards_mono(
    reg: Seq<StateDeclView>,
    ws: Seq<TransitionView>,
    n: Seq<char>,
)
    requires
        reg_find(reg, n) is Some,
    ensures
        reg_find(register_wildcards(reg, ws), n) is Some,
    decreases ws.len(),
{
    if ws.len() > 0 {
        lemma_placeholder_mono(reg, ws[0].out_state, ws[0].out_state_data_expr is Some, n);
        lemma_register_wildcards_mono(
            add_placeholder(reg, ws[0].out_state, ws[0].out_state_data_expr is Some),
            ws.drop_first(),
            n,
        );
    }
}

/// After registering the explicit rules, every one of their input and
/// destination names is in the registry.
pub proof fn lemma_register_explicit_covers(reg: Seq<StateDeclView>, rs: Seq<TransitionView>)
    ensures
        forall|j: int| 0 <= j < rs.len() ==> reg_find(
            register_explicit(reg, rs),
            (#[trigger] rs[j]).out_state,
        ) is Some,
        forall|j: int| 0 <= j < rs.len() ==> reg_find(
            register_explicit(reg, rs),
            (#[trigger] rs[j]).in_state.unwrap().name,
        ) is Some,
    decreases rs.len(),
{
    if rs.len() > 0 {
        let r = rs[0];
        let d = r.in_state.unwrap();
        let reg1 = upsert_state(reg, d);
        let reg2 = register_step(reg, r);
        match reg_find(reg, d.name) {
            Some(i) => {
                lemma_reg_find(reg, d.name);
                lemma_reg_find_update(reg, i, d, d.name);
            },
            None => {
                lemma_reg_find_push(reg, d, d.name);
            },
        }
        assert(reg_find(reg1, d.name) is Some);
        lemma_placeholder_mono(reg1, r.out_state, r.out_state_data_expr is Some, d.name);
        if reg_find(reg1, r.out_state) is None {
            lemma_reg_find_push(
                reg1,
                StateDeclView { name: r.out_state, has_payload: r.out_state_data_expr is Some },
                r.out_state,
            );
        }
        assert(reg_find(reg2, r.out_state) is Some);
        lemma_register_explicit_mono(reg2, rs.drop_first(), d.name);
        lemma_register_explicit_mono(reg2, rs.drop_first(), r.out_state);
        lemma_register_explicit_covers(reg2, rs.drop_first());
        assert(forall|j: int| 1 <= j < rs.len() ==> rs[j] == rs.drop_first()[j - 1]);
    }
}

/// After registering the wildcard placeholders, every wildcard's
/// destination name is in the registry.
pub proof fn lemma_register_wildcards_covers(reg: Seq<StateDeclView>, ws: Seq<TransitionView>)
    ensures
        forall|j: int| 0 <= j < ws.len() ==> reg_find(
            register_wildcards(reg, ws),
            (#[trigger] ws[j]).out_state,
        ) is Some,
    decreases ws.len(),
{
    if ws.len() > 0 {
        let reg1 = add_placeholder(reg, ws[0].out_state, ws[0].out_state_data_expr is Some);
        if reg_find(reg, ws[0].out_state) is None {
            lemma_reg_find_push(
                reg,
                StateDeclView {
                    name: ws[0].out_state,
                    has_payload: ws[0].out_state_data_expr is Some,
                },
                ws[0].out_state,
            );
        }
        lemma_register_wildcards_mono(reg1, ws.drop_first(), ws[0].out_state);
        lemma_register_wildcards_covers(reg1, ws.drop_first());
        assert(forall|j: int| 1 <= j < ws.len() ==> ws[j] == ws.drop_first()[j - 1]);
    }
}

/// Every element of `explicit_for` satisfies whatever holds of every
/// element of the rule list it was filtered from.
pub proof fn lemma_explicit_for_all(
    rs: Seq<TransitionView>,
    name: Seq<char>,
    p: spec_fn(TransitionView) -> bool,
)
    requires
        forall|j: int| 0 <= j < rs.len() ==> p(#[trigger] rs[j]),
    ensures
        forall|k: int| 0 <= k < explicit_for(rs, name).len() ==> p(
            #[trigger] explicit_for(rs, name)[k],
        ),
    decreases rs.len(),
{
    if rs.len() > 0 {
        assert(forall|j: int| 0 <= j < rs.len() - 1 ==> rs.drop_last()[j] == rs[j]);
        lemma_explicit_for_all(rs.drop_last(), name, p);
        let pre = explicit_for(rs.drop_last(), name);
        let whole = explicit_for(rs, name);
        assert forall|k: int| 0 <= k < whole.len() implies p(whole[k]) by {
            if k < pre.len() {
                assert(whole[k] == pre[k]);
            } else {
                assert(whole[k] == rs.last());
                assert(p(rs[rs.len() - 1]));
            }
        }
    }
}

/// Registering an input state preserves name uniqueness.
pub proof fn lemma_upsert_unique(reg: Seq<StateDeclView>, d: StateDeclView)
    requires
        reg_unique(reg),
    ensures
        reg_unique(upsert_state(reg, d)),
{
    lemma_reg_find(reg, d.name);
    let reg2 = upsert_state(reg, d);
    match reg_find(reg, d.name) {
        Some(i) => {
            assert forall|a: int, b: int|
                0 <= a < b < reg2.len() implies reg2[a].name != reg2[b].name by {
                assert(reg2[a].name == reg[a].name);
                assert(reg2[b].name == reg[b].name);
            }
        },
        None => {
            assert forall|a: int, b: int|
                0 <= a < b < reg2.len() implies reg2[a].name != reg2[b].name by {
                if b == reg.len() {
                    assert(reg2[b] == d);
                    assert(reg2[a] == reg[a]);
                } else {
                    assert(reg2[a] == reg[a]);
                    assert(reg2[b] == reg[b]);
                }
            }
        },
    }
}

/// Registering a destination placeholder preserves name uniqueness.
pub proof fn lemma_placeholder_unique(reg: Seq<StateDeclView>, name: Seq<char>, has_payload: bool)
    requires
        reg_unique(reg),
    ensures
        reg_unique(add_placeholder(reg, name, has_payload)),
{
    lemma_reg_find(reg, name);
    let reg2 = add_placeholder(reg, name, has_payload);
    if reg_find(reg, name) is None {
        assert forall|a: int, b: int|
            0 <= a < b < reg2.len() implies reg2[a].name != reg2[b].name by {
            if b == reg.len() {
                assert(reg2[b].name == name);
                assert(reg2[a] == reg[a]);
            } else {
                assert(reg2[a] == reg[a]);
                assert(reg2[b] == reg[b]);
            }
        }
    }
}

/// A dispatched rule leads to a registered destination and constructs
/// the payload that destination needs.
pub open spec fn rule_wf_in(reg: Seq<StateDeclView>, r: TransitionView) -> bool {
    &&& reg_find(reg, r.out_state) is Some
    &&& (reg_decl(reg, r.out_state).has_payload ==> r.out_state_data_expr is Some)
}

impl ParsedStateMachineView {
    /// Well-formedness of a built model: the dispatch table's keys are
    /// exactly the registered states, in the same order; state names
    /// are unique; every dispatched rule's destination is registered
    /// with its payload constructible; the starting state is registered.
    pub open spec fn wf(self) -> bool {
        &&& self.states_events_mapping.len() == self.states.len()
        &&& (forall|i: int|
            0 <= i < self.states.len() ==> (#[trigger] self.states_events_mapping[i]).state
                == self.states[i].name)
        &&& reg_unique(self.states)
        &&& (forall|i: int, k: int|
            0 <= i < self.states_events_mapping.len() && 0 <= k
                < self.states_events_mapping[i].rules.len() ==> rule_wf_in(
                self.states,
                #[trigger] self.states_events_mapping[i].rules[k],
            ))
        &&& reg_find(self.states, self.starting_state.name) is Some
    }
}

/// The exact relation between a raw rule set and the model built from
/// it: exactly one start-marked rule, whose input state (as written
/// there) is the starting state; the registry is the registration fold;
/// and each state's dispatch list is the explicit rules that name it,
/// in declaration order, followed by every wildcard rule, in
/// declaration order.
pub open spec fn is_model_of(sm: StateMachineView, m: ParsedStateMachineView) -> bool {
    &&& start_count(sm.transitions) == 1
    &&& start_find(sm.transitions) matches Some(k) && m.starting_state == sm.transitions[k].in_state.unwrap()
    &&& m.states == model_states(sm)
    &&& m.states_events_mapping.len() == m.states.len()
    &&& (forall|i: int|
        0 <= i < m.states.len() ==> (#[trigger] m.states_events_mapping[i]).state
            == m.states[i].name)
    &&& (forall|i: int|
        0 <= i < m.states.len() ==> (#[trigger] m.states_events_mapping[i]).rules
            == explicit_for(sm.transitions, m.states[i].name) + sm.wildcards)
    &&& m.states_attrs == sm.states_attrs
}

/// Every rule in `explicit_for(rs, name)` names `name` as its input
/// state.
pub proof fn lemma_explicit_for_names(rs: Seq<TransitionView>, name: Seq<char>)
    ensures
        forall|k: int| 0 <= k < explicit_for(rs, name).len() ==> rule_names_state(
            #[trigger] explicit_for(rs, name)[k],
            name,
        ),
    decreases rs.len(),
{
    if rs.len() > 0 {
        lemma_explicit_for_names(rs.drop_last(), name);
        let pre = explicit_for(rs.drop_last(), name);
        let whole = explicit_for(rs, name);
        assert forall|k: int| 0 <= k < whole.len() implies rule_names_state(whole[k], name) by {
            if k < pre.len() {
                assert(whole[k] == pre[k]);
            } else {
                assert(whole[k] == rs.last());
            }
        }
    }
}

/// The built model of any valid rule set has exactly one start-marked
/// rule, and the dispatch table's keys are exactly the registered
/// states' names, in the same order.
pub proof fn lemma_model_keys(sm: StateMachineView, m: ParsedStateMachineView)
    requires
        is_model_of(sm, m),
    ensures
        start_count(sm.transitions) == 1,
        m.states_events_mapping.len() == m.states.len(),
        forall|i: int|
            0 <= i < m.states.len() ==> (#[trigger] m.states_events_mapping[i]).state
                == m.states[i].name,
{
}

/// In every state's dispatch list, the explicit rules that name the
/// state occupy the prefix, in their declaration order, and the
/// wildcard rules occupy the contiguous suffix, in their declaration
/// order.
pub proof fn lemma_dispatch_order(sm: StateMachineView, m: ParsedStateMachineView, i: int)
    requires
        is_model_of(sm, m),
        0 <= i < m.states_events_mapping.len(),
    ensures
        ({
            let rules = m.states_events_mapping[i].rules;
            let ex = explicit_for(sm.transitions, m.states[i].name);
            &&& rules.len() == ex.len() + sm.wildcards.len()
            &&& (forall|k: int|
                0 <= k < ex.len() ==> #[trigger] rules[k] == ex[k] && rule_names_state(
                    rules[k],
                    m.states[i].name,
                ))
            &&& (forall|k: int|
                ex.len() <= k < rules.len() ==> #[trigger] rules[k] == sm.wildcards[
                    k - ex.len()
                ])
        }),
{
    lemma_explicit_for_names(sm.transitions, m.states[i].name);
}

/// Looks a name up in the state registry, returning the index of the
/// first (and, in a well-formed model, only) entry carrying it.
pub fn find_state(states: &Vec<StateDecl>, name: &String) -> (r: Option<usize>)
    ensures
        match r {
            Some(i) => reg_find(decls_view(states@), name@) == Some(i as int),
            None => reg_find(decls_view(states@), name@) is None,
        },
{
    let ghost reg = decls_view(states@);
    let mut i: usize = 0;
    while i < states.len()
        invariant
            0 <= i <= states.len(),
            reg == decls_view(states@),
            forall|j: int| 0 <= j < i ==> reg[j].name != name@,
        decreases states.len() - i,
    {
        if states[i].name == *name {
            proof {
                assert(reg[i as int] == states@[i as int]@);
                assert(reg[i as int].name == name@);
                lemma_reg_find(reg, name@);
            }
            return Some(i);
        }
        i = i + 1;
    }
    proof {
        lemma_reg_find(reg, name@);
    }
    None
}

/// Counts the start-marked rules in the list.
fn count_starts(transitions: &Vec<StateTransition>) -> (n: usize)
    ensures
        n as int == start_count(rules_view(transitions@)),
{
    let ghost tv = rules_view(transitions@);
    let mut n: usize = 0;
    let mut i: usize = 0;
    while i < transitions.len()
        invariant
            i <= transitions.len(),
            n <= i,
            tv == rules_view(transitions@),
            n as int == start_count(tv.take(i as int)),
        decreases transitions.len() - i,
    {
        proof {
            assert(tv.take(i + 1).drop_last() =~= tv.take(i as int));
            assert(tv.take(i + 1).last() == tv[i as int]);
            assert(tv[i as int] == transitions@[i as int]@);
        }
        if transitions[i].start {
            n = n + 1;
        }
        i = i + 1;
    }
    proof {
        assert(tv.take(transitions@.len() as int) =~= tv);
    }
    n
}

/// Finds the first start-marked rule in the list.
fn find_start(transitions: &Vec<StateTransition>) -> (r: Option<usize>)
    ensures
        match r {
            Some(i) => start_find(rules_view(transitions@)) == Some(i as int),
            None => start_find(rules_view(transitions@)) is None,
        },
{
    let ghost tv = rules_view(transitions@);
    let mut i: usize = 0;
    while i < transitions.len()
        invariant
            i <= transitions.len(),
            tv == rules_view(transitions@),
            forall|j: int| 0 <= j < i ==> !tv[j].start,
        decreases transitions.len() - i,
    {
        if transitions[i].start {
            proof {
                assert(tv[i as int] == transitions@[i as int]@);
                assert(tv[i as int].start);
                lemma_start_find(tv);
            }
            return Some(i);
        }
        proof {
            assert(tv[i as int] == transitions@[i as int]@);
        }
        i = i + 1;
    }
    proof {
        lemma_start_find(tv);
    }
    None
}

/// Builds the state registry of the rule set, in registration order.
fn build_registry(sm: &StateMachine) -> (states: Vec<StateDecl>)
    requires
        sm@.wf(),
    ensures
        decls_view(states@) == model_states(sm@),
        reg_unique(decls_view(states@)),
{
    let ghost tv = sm@.transitions;
    let ghost wv = sm@.wildcards;
    let mut states: Vec<StateDecl> = Vec::new();
    proof {
        assert(decls_view(states@) =~= Seq::<StateDeclView>::empty());
        assert(tv.skip(0) =~= tv);
    }
    let mut i: usize = 0;
    while i < sm.transitions.len()
        invariant
            i <= sm.transitions.len(),
            sm@.wf(),
            tv == sm@.transitions,
            wv == sm@.wildcards,
            register_explicit(decls_view(states@), tv.skip(i as int)) == register_explicit(
                Seq::empty(),
                tv,
            ),
            reg_unique(decls_view(states@)),
        decreases sm.transitions.len() - i,
    {
        let ghost reg0 = decls_view(states@);
        let r = &sm.transitions[i];
        proof {
            assert(tv[i as int] == sm.transitions@[i as int]@);
            assert(tv[i as int].in_state is Some);
        }
        let d = match &r.in_state {
            Some(d) => d,
            None => vstd::pervasive::unreached(),
        };
        match find_state(&states, &d.name) {
            Some(j) => {
                proof {
                    lemma_reg_find(reg0, d.name@);
                }
                let nd = d.duplicate();
                states.set(j, nd);
                proof {
                    assert(decls_view(states@) =~= reg0.update(j as int, d@));
                }
            },
            None => {
                states.push(d.duplicate());
                proof {
                    assert(decls_view(states@) =~= reg0.push(d@));
                }
            },
        }
        proof {
            assert(decls_view(states@) == upsert_state(reg0, tv[i as int].in_state.unwrap()));
            lemma_upsert_unique(reg0, tv[i as int].in_state.unwrap());
        }
        let ghost reg1 = decls_view(states@);
        let has_p = r.out_state_data_expr.is_some();
        match find_state(&states, &r.out_state) {
            Some(_) => {},
            None => {
                states.push(StateDecl { name: r.out_state.clone(), has_payload: has_p });
                proof {
                    assert(decls_view(states@) =~= reg1.push(
                        StateDeclView {
                            name: tv[i as int].out_state,
                            has_payload: tv[i as int].out_state_data_expr is Some,
                        },
                    ));
                }
            },
        }
        proof {
            assert(decls_view(states@) == register_step(reg0, tv[i as int]));
            lemma_placeholder_unique(
                reg1,
                tv[i as int].out_state,
                tv[i as int].out_state_data_expr is Some,
            );
            assert(tv.skip(i as int).drop_first() =~= tv.skip(i as int + 1));
            assert(tv.skip(i as int)[0] == tv[i as int]);
        }
        i = i + 1;
    }
    proof {
        assert(tv.skip(tv.len() as int) =~= Seq::<TransitionView>::empty());
        assert(decls_view(states@) == register_explicit(Seq::empty(), tv));
        assert(wv.skip(0) =~= wv);
    }
    let mut k: usize = 0;
    while k < sm.wildcards.len()
        invariant
            k <= sm.wildcards.len(),
            tv == sm@.transitions,
            wv == sm@.wildcards,
            register_wildcards(decls_view(states@), wv.skip(k as int)) == register_wildcards(
                register_explicit(Seq::empty(), tv),
                wv,
            ),
            reg_unique(decls_view(states@)),
        decreases sm.wildcards.len() - k,
    {
        let ghost reg0 = decls_view(states@);
        let w = &sm.wildcards[k];
        proof {
            assert(wv[k as int] == sm.wildcards@[k as int]@);
        }
        let has_p = w.out_state_data_expr.is_some();
        match find_state(&states, &w.out_state) {
            Some(_) => {},
            None => {
                states.push(StateDecl { name: w.out_state.clone(), has_payload: has_p });
                proof {
                    assert(decls_view(states@) =~= reg0.push(
                        StateDeclView {
                            name: wv[k as int].out_state,
                            has_payload: wv[k as int].out_state_data_expr is Some,
                        },
                    ));
                }
            },
        }
        proof {
            assert(decls_view(states@) == add_placeholder(
                reg0,
                wv[k as int].out_state,
                wv[k as int].out_state_data_expr is Some,
            ));
            lemma_placeholder_unique(
                reg0,
                wv[k as int].out_state,
                wv[k as int].out_state_data_expr is Some,
            );
            assert(wv.skip(k as int).drop_first() =~= wv.skip(k as int + 1));
            assert(wv.skip(k as int)[0] == wv[k as int]);
        }
        k = k + 1;
    }
    proof {
        assert(wv.skip(wv.len() as int) =~= Seq::<TransitionView>::empty());
    }
    states
}

/// Checks that every rule constructs the payload its destination state
/// needs, returning the first offending destination name (explicit
/// rules before wildcards, each list in declaration order).
fn check_payloads(sm: &StateMachine, states: &Vec<StateDecl>) -> (r: Option<String>)
    requires
        decls_view(states@) == model_states(sm@),
    ensures
        match r {
            Some(name) => model_missing(sm@) matches Some(i) && (sm@.transitions
                + sm@.wildcards)[i].out_state == name@,
            None => model_missing(sm@) is None,
        },
{
    let ghost reg = decls_view(states@);
    let ghost cs = sm@.transitions + sm@.wildcards;
    let mut i: usize = 0;
    while i < sm.transitions.len()
        invariant
            i <= sm.transitions.len(),
            reg == decls_view(states@),
            reg == model_states(sm@),
            cs == sm@.transitions + sm@.wildcards,
            forall|j: int| 0 <= j < i ==> !missing_payload(reg, cs[j]),
        decreases sm.transitions.len() - i,
    {
        let t = &sm.transitions[i];
        proof {
            assert(cs[i as int] == sm@.transitions[i as int]);
            assert(sm@.transitions[i as int] == sm.transitions@[i as int]@);
        }
        match find_state(states, &t.out_state) {
            Some(j) => {
                proof {
                    lemma_reg_find(reg, t.out_state@);
                    assert(reg[j as int] == states@[j as int]@);
                }
                if states[j].has_payload && t.out_state_data_expr.is_none() {
                    proof {
                        assert(reg_decl(reg, cs[i as int].out_state) == reg[j as int]);
                        assert(missing_payload(reg, cs[i as int]));
                        lemma_missing_find(reg, cs);
                    }
                    return Some(t.out_state.clone());
                }
                proof {
                    assert(!missing_payload(reg, cs[i as int]));
                }
            },
            None => {
                proof {
                    assert(!missing_payload(reg, cs[i as int]));
                }
            },
        }
        i = i + 1;
    }
    let mut k: usize = 0;
    while k < sm.wildcards.len()
        invariant
            k <= sm.wildcards.len(),
            reg == decls_view(states@),
            reg == model_states(sm@),
            cs == sm@.transitions + sm@.wildcards,
            forall|j: int| 0 <= j < sm@.transitions.len() + k ==> !missing_payload(reg, cs[j]),
        decreases sm.wildcards.len() - k,
    {
        let t = &sm.wildcards[k];
        let ghost ci = sm@.transitions.len() + k;
        proof {
            assert(cs[ci] == sm@.wildcards[k as int]);
            assert(sm@.wildcards[k as int] == sm.wildcards@[k as int]@);
        }
        match find_state(states, &t.out_state) {
            Some(j) => {
                proof {
                    lemma_reg_find(reg, t.out_state@);
                    assert(reg[j as int] == states@[j as int]@);
                }
                if states[j].has_payload && t.out_state_data_expr.is_none() {
                    proof {
                        assert(reg_decl(reg, cs[ci].out_state) == reg[j as int]);
                        assert(missing_payload(reg, cs[ci]));
                        lemma_missing_find(reg, cs);
                    }
                    return Some(t.out_state.clone());
                }
                proof {
                    assert(!missing_payload(reg, cs[ci]));
                }
            },
            None => {
                proof {
                    assert(!missing_payload(reg, cs[ci]));
                }
            },
        }
        k = k + 1;
    }
    proof {
        lemma_missing_find(reg, cs);
    }
    None
}

/// Builds one dispatch list per registered state: the explicit rules
/// that name it, in declaration order, then every wildcard rule, in
/// declaration order.
fn build_mapping(sm: &StateMachine, states: &Vec<StateDecl>) -> (mapping: Vec<DispatchEntry>)
    requires
        sm@.wf(),
    ensures
        mapping@.len() == states@.len(),
        forall|i: int|
            0 <= i < mapping@.len() ==> (#[trigger] entries_view(mapping@)[i]).state
                == decls_view(states@)[i].name,
        forall|i: int|
            0 <= i < mapping@.len() ==> (#[trigger] entries_view(mapping@)[i]).rules
                == explicit_for(sm@.transitions, decls_view(states@)[i].name) + sm@.wildcards,
{
    let ghost tv = sm@.transitions;
    let ghost wv = sm@.wildcards;
    let ghost sv = decls_view(states@);
    let mut mapping: Vec<DispatchEntry> = Vec::new();
    let mut si: usize = 0;
    while si < states.len()
        invariant
            si <= states.len(),
            sm@.wf(),
            tv == sm@.transitions,
            wv == sm@.wildcards,
            sv == decls_view(states@),
            mapping@.len() == si,
            forall|j: int|
                0 <= j < si ==> (#[trigger] entries_view(mapping@)[j]).state == sv[j].name,
            forall|j: int|
                0 <= j < si ==> (#[trigger] entries_view(mapping@)[j]).rules == explicit_for(
                    tv,
                    sv[j].name,
                ) + wv,
        decreases states.len() - si,
    {
        let sname = states[si].name.clone();
        proof {
            assert(sv[si as int] == states@[si as int]@);
            assert(sname@ == sv[si as int].name);
            assert(tv.take(0) =~= Seq::<TransitionView>::empty());
        }
        let mut rules: Vec<StateTransition> = Vec::new();
        proof {
            assert(rules_view(rules@) =~= Seq::<TransitionView>::empty());
        }
        let mut i: usize = 0;
        while i < sm.transitions.len()
            invariant
                i <= sm.transitions.len(),
                sm@.wf(),
                tv == sm@.transitions,
                sname@ == sv[si as int].name,
                rules_view(rules@) == explicit_for(tv.take(i as int), sname@),
            decreases sm.transitions.len() - i,
        {
            let t = &sm.transitions[i];
            proof {
                assert(tv[i as int] == sm.transitions@[i as int]@);
                assert(tv.take(i + 1).drop_last() =~= tv.take(i as int));
                assert(tv.take(i + 1).last() == tv[i as int]);
            }
            let ghost rules0 = rules_view(rules@);
            let is_match = match &t.in_state {
                Some(d) => d.name == sname,
                None => false,
            };
            proof {
                assert(is_match == rule_names_state(tv[i as int], sname@));
            }
            if is_match {
                rules.push(t.duplicate());
                proof {
                    assert(rules_view(rules@) =~= rules0.push(tv[i as int]));
                    assert(rules0 + seq![tv[i as int]] =~= rules0.push(tv[i as int]));
                }
            } else {
                proof {
                    assert(rules0 + Seq::<TransitionView>::empty() =~= rules0);
                }
            }
            i = i + 1;
        }
        proof {
            assert(tv.take(tv.len() as int) =~= tv);
            assert(wv.take(0) =~= Seq::<TransitionView>::empty());
            assert(explicit_for(tv, sname@) + Seq::<TransitionView>::empty() =~= explicit_for(
                tv,
                sname@,
            ));
        }
        let mut k: usize = 0;
        while k < sm.wildcards.len()
            invariant
                k <= sm.wildcards.len(),
                wv == sm@.wildcards,
                sname@ == sv[si as int].name,
                rules_view(rules@) == explicit_for(tv, sname@) + wv.take(k as int),
            decreases sm.wildcards.len() - k,
        {
            let ghost rules0 = rules_view(rules@);
            let w = &sm.wildcards[k];
            rules.push(w.duplicate());
            proof {
                assert(wv[k as int] == sm.wildcards@[k as int]@);
                assert(rules_view(rules@) =~= rules0.push(wv[k as int]));
                assert(explicit_for(tv, sname@) + wv.take(k + 1) =~= rules0.push(wv[k as int]));
            }
            k = k + 1;
        }
        proof {
            assert(wv.take(wv.len() as int) =~= wv);
        }
        let ghost m0 = entries_view(mapping@);
        mapping.push(DispatchEntry { state: sname, rules });
        proof {
            assert(entries_view(mapping@) =~= m0.push(
                DispatchEntryView {
                    state: sv[si as int].name,
                    rules: explicit_for(tv, sv[si as int].name) + wv,
                },
            ));
        }
        si = si + 1;
    }
    mapping
}

impl ParsedStateMachine {
    /// Validates the rule set and assembles the semantic model:
    /// exactly one start-marked rule; the state registry covering
    /// every mentioned state; one dispatch list per state, explicit
    /// rules first, then the wildcards; and every destination's
    /// payload constructible where it needs one.
    pub fn new(sm: StateMachine) -> (r: Result<ParsedStateMachine, ModelError>)
        requires
            sm@.wf(),
        ensures
            match r {
                Ok(m) => {
                    &&& is_model_of(sm@, m@)
                    &&& m@.wf()
                    &&& model_missing(sm@) is None
                },
                Err(e) => match e@ {
                    ModelErrorView::NoStartingState => start_count(sm@.transitions) == 0,
                    ModelErrorView::MultipleStartingStates => start_count(sm@.transitions) > 1,
                    ModelErrorView::MissingPayloadConstructor(name) => {
                        &&& start_count(sm@.transitions) == 1
                        &&& model_missing(sm@) matches Some(i) && (sm@.transitions
                            + sm@.wildcards)[i].out_state == name
                    },
                },
            },
    {
        let ghost tv = sm@.transitions;
        let ghost wv = sm@.wildcards;
        let num_start = count_starts(&sm.transitions);
        if num_start == 0 {
            return Err(ModelError::NoStartingState);
        }
        if num_start > 1 {
            return Err(ModelError::MultipleStartingStates);
        }
        let start_idx = match find_start(&sm.transitions) {
            Some(i) => i,
            None => {
                proof {
                    lemma_start_find(tv);
                    lemma_no_start_count(tv);
                }
                return Err(ModelError::NoStartingState);
            },
        };
        proof {
            lemma_start_find(tv);
            assert(tv[start_idx as int] == sm.transitions@[start_idx as int]@);
            assert(tv[start_idx as int].in_state is Some);
        }
        let sr = &sm.transitions[start_idx];
        let starting_state = match &sr.in_state {
            Some(d) => d.duplicate(),
            None => vstd::pervasive::unreached(),
        };
        proof {
            assert(starting_state@ == tv[start_idx as int].in_state.unwrap());
        }
        let states = build_registry(&sm);
        match check_payloads(&sm, &states) {
            Some(name) => {
                return Err(ModelError::MissingPayloadConstructor(name));
            },
            None => {},
        }
        let mapping = build_mapping(&sm, &states);
        let ghost reg = model_states(sm@);
        let m = ParsedStateMachine {
            starting_state,
            states,
            states_events_mapping: mapping,
            states_attrs: sm.states_attrs,
        };
        proof {
            lemma_register_explicit_covers(Seq::empty(), tv);
            assert forall|j: int|
                0 <= j < tv.len() implies reg_find(reg, (#[trigger] tv[j]).out_state) is Some by {
                lemma_register_wildcards_mono(
                    register_explicit(Seq::empty(), tv),
                    wv,
                    tv[j].out_state,
                );
            }
            lemma_register_wildcards_covers(register_explicit(Seq::empty(), tv), wv);
            lemma_register_wildcards_mono(
                register_explicit(Seq::empty(), tv),
                wv,
                tv[start_idx as int].in_state.unwrap().name,
            );
            lemma_missing_find(reg, tv + wv);
            assert forall|j: int| 0 <= j < tv.len() implies rule_wf_in(reg, #[trigger] tv[j]) by {
                assert((tv + wv)[j] == tv[j]);
                assert(!missing_payload(reg, tv[j]));
            }
            assert forall|j: int| 0 <= j < wv.len() implies rule_wf_in(reg, #[trigger] wv[j]) by {
                assert((tv + wv)[tv.len() + j] == wv[j]);
                assert(!missing_payload(reg, wv[j]));
            }
            assert(m@.states == reg);
            assert forall|i: int, k: int|
                0 <= i < m@.states_events_mapping.len() && 0 <= k
                    < m@.states_events_mapping[i].rules.len() implies rule_wf_in(
                m@.states,
                #[trigger] m@.states_events_mapping[i].rules[k],
            ) by {
                let name = m@.states[i].name;
                let ex = explicit_for(tv, name);
                assert(m@.states_events_mapping[i].rules == ex + wv);
                if k < ex.len() {
                    lemma_explicit_for_all(tv, name, |r: TransitionView| rule_wf_in(reg, r));
                    assert((ex + wv)[k] == ex[k]);
                } else {
                    assert((ex + wv)[k] == wv[k - ex.len()]);
                }
            }
        }
        Ok(m)
    }
}

} // verus!
