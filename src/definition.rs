//! Workflow definitions: states, transitions and their mathematical views.

use vstd::prelude::*;

verus! {

/// The id that stands for the initial pseudostate as a source and for the
/// terminal pseudostate as a target.
pub open spec fn pseudo() -> Seq<char> {
    "[*]"@
}

/// How a state behaves when a run leaves it.
#[derive(Debug, Clone, Copy, PartialEq, Eq, Structural)]
pub enum StateKind {
    /// At most one unguarded outgoing transition.
    Normal,
    /// Guarded branches plus at most one unguarded default, evaluated last.
    Choice,
    /// Every outgoing transition fires at once.
    Fork,
    /// Waits until every branch that can reach it has arrived.
    Join,
}

#[derive(Debug)]
pub struct State {
    pub id: String,
    pub kind: StateKind,
    pub actions: Vec<String>,
}

pub ghost struct StateView {
    pub id: Seq<char>,
    pub kind: StateKind,
    pub actions: Seq<Seq<char>>,
}

impl View for State {
    type V = StateView;

    open spec fn view(&self) -> StateView {
        StateView { id: self.id@, kind: self.kind, actions: self.actions.deep_view() }
    }
}

pub open spec fn opt_view(o: Option<String>) -> Option<Seq<char>> {
    match o {
        Some(s) => Some(s@),
        None => None,
    }
}

#[derive(Debug)]
pub struct Transition {
    pub from: String,
    pub to: String,
    pub guard: Option<String>,
    pub label: Option<String>,
}

pub ghost struct TransitionView {
    pub from: Seq<char>,
    pub to: Seq<char>,
    pub guard: Option<Seq<char>>,
    pub label: Option<Seq<char>>,
}

impl View for Transition {
    type V = TransitionView;

    open spec fn view(&self) -> TransitionView {
        TransitionView {
            from: self.from@,
            to: self.to@,
            guard: opt_view(self.guard),
            label: opt_view(self.label),
        }
    }
}

pub open spec fn tviews(v: Seq<Transition>) -> Seq<TransitionView> {
    v.map_values(|t: Transition| t@)
}

#[derive(Debug)]
pub struct WorkflowDefinition {
    pub name: String,
    pub description: String,
    pub version: String,
    /// The state that the initial edge enters (empty if there is none).
    pub initial_state: String,
    pub states: Vec<State>,
    pub transitions: Vec<Transition>,
    /// Annotations of the diagram, kept for documentation only.
    pub notes: Vec<String>,
}

impl WorkflowDefinition {
    pub open spec fn transition_views(&self) -> Seq<TransitionView> {
        tviews(self.transitions@)
    }

    pub open spec fn has_state(&self, id: Seq<char>) -> bool {
        exists|j: int| 0 <= j < self.states.len() && #[trigger] self.states[j].id@ == id
    }

    /// State ids are distinct and every transition endpoint is a declared
    /// state or the pseudostate.
    pub open spec fn refs_declared(&self) -> bool {
        &&& forall|a: int, b: int|
            0 <= a < b < self.states.len() ==> self.states[a].id@ != self.states[b].id@
        &&& forall|j: int| 0 <= j < self.states.len() ==> self.states[j].id@ != pseudo()
        &&& forall|k: int|
            0 <= k < self.transitions.len() ==> {
                let t = #[trigger] self.transitions[k];
                &&& (t.from@ == pseudo() || self.has_state(t.from@))
                &&& (t.to@ == pseudo() || self.has_state(t.to@))
            }
    }
}

/// The number of transitions of `ts` that leave `id` without a guard.
pub open spec fn unguarded_out(ts: Seq<TransitionView>, id: Seq<char>) -> nat
    decreases ts.len(),
{
    if ts.len() == 0 {
        0
    } else {
        let t = ts.last();
        unguarded_out(ts.drop_last(), id) + if t.from == id && t.guard is None {
            1nat
        } else {
            0nat
        }
    }
}

} // verus!
