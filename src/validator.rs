//! Structural checks of a workflow definition, reported as a batch of findings.

use crate::definition::{pseudo, StateKind, TransitionView, Transition, tviews, unguarded_out, WorkflowDefinition};
use crate::parser::{clone_string, count_unguarded, eq_lit, find_id};
use vstd::prelude::*;

verus! {

/// `x` can be reached from one of `seeds` in at most `n` steps; no step
/// leaves the pseudostate or `stop`.
pub open spec fn reach_n(ts: Seq<TransitionView>, seeds: Seq<Seq<char>>, stop: Seq<char>, x: Seq<char>, n: nat) -> bool
    decreases n,
{
    if n == 0 {
        seeds.contains(x)
    } else {
        reach_n(ts, seeds, stop, x, (n - 1) as nat) || exists|k: int|
            0 <= k < ts.len() && #[trigger] ts[k].to == x && ts[k].from != pseudo() && ts[k].from != stop && reach_n(ts, seeds, stop, ts[k].from,
                (n - 1) as nat,
            )
    }
}

pub open spec fn reachable(ts: Seq<TransitionView>, seeds: Seq<Seq<char>>, stop: Seq<char>, x: Seq<char>) -> bool {
    exists|n: nat| reach_n(ts, seeds, stop, x, n)
}

/// Every target of a transition whose source (neither the pseudostate nor
/// `stop`) is in `r` is in `r` too.
pub open spec fn closed(ts: Seq<TransitionView>, stop: Seq<char>, r: Seq<Seq<char>>) -> bool {
    forall|k: int|
        0 <= k < ts.len() && ts[k].from != pseudo() && ts[k].from != stop && r.contains(#[trigger] ts[k].from)
            ==> r.contains(ts[k].to)
}

proof fn lemma_closed_complete(ts: Seq<TransitionView>, seeds: Seq<Seq<char>>, stop: Seq<char>, r: Seq<Seq<char>>, x: Seq<char>, n: nat)
    requires
        closed(ts, stop, r),
        forall|y: Seq<char>| seeds.contains(y) ==> #[trigger] r.contains(y),
        reach_n(ts, seeds, stop, x, n),
    ensures
        r.contains(x),
    decreases n,
{
    if n > 0 {
        if reach_n(ts, seeds, stop, x, (n - 1) as nat) {
            lemma_closed_complete(ts, seeds, stop, r, x, (n - 1) as nat);
        } else {
            let k = choose|k: int|
                0 <= k < ts.len() && #[trigger] ts[k].to == x && ts[k].from != pseudo() && ts[k].from != stop && reach_n(ts, seeds, stop, ts[k].from,
                    (n - 1) as nat,
                );
            lemma_closed_complete(ts, seeds, stop, r, ts[k].from, (n - 1) as nat);
        }
    }
}

pub open spec fn falses(u: Seq<bool>) -> nat
    decreases u.len(),
{
    if u.len() == 0 {
        0
    } else {
        falses(u.drop_last()) + if u.last() {
            0nat
        } else {
            1nat
        }
    }
}

proof fn lemma_falses_mark(u: Seq<bool>, k: int)
    requires
        0 <= k < u.len(),
        !u[k],
    ensures
        falses(u.update(k, true)) + 1 == falses(u),
    decreases u.len(),
{
    let v = u.update(k, true);
    if k == u.len() - 1 {
        assert(v.drop_last() =~= u.drop_last());
    } else {
        assert(v.drop_last() =~= u.drop_last().update(k, true));
        lemma_falses_mark(u.drop_last(), k);
    }
}

/// The states reachable from `seeds` (the seeds first, in order).
pub fn reach_set(ts: &Vec<Transition>, seeds: &Vec<String>, stop: &String) -> (r: Vec<String>)
    ensures
        forall|x: Seq<char>| r.deep_view().contains(x) <==> reachable(tviews(ts@), seeds.deep_view(), stop@, x),
{
    let ghost tv = tviews(ts@);
    let ghost sv = seeds.deep_view();
    let mut r: Vec<String> = Vec::new();
    let mut i: usize = 0;
    while i < seeds.len()
        invariant
            sv == seeds.deep_view(),
            i <= seeds.len(),
            r.len() == i,
            r.deep_view() == sv.subrange(0, i as int),
        decreases seeds.len() - i,
    {
        let ghost before = r.deep_view();
        let c = clone_string(&seeds[i]);
        r.push(c);
        assert(r.deep_view() =~= before.push(c@));
        assert(sv[i as int] == seeds[i as int]@);
        assert(r.deep_view() =~= sv.subrange(0, i + 1));
        i = i + 1;
    }
    assert(sv.subrange(0, sv.len() as int) =~= sv);
    assert forall|j: int| 0 <= j < r.len() implies reachable(tv, sv, stop@, #[trigger] r.deep_view()[j]) by {
        assert(sv[j] == r.deep_view()[j]);
        assert(reach_n(tv, sv, stop@, r.deep_view()[j], 0));
    }
    let mut used: Vec<bool> = Vec::new();
    let mut k: usize = 0;
    while k < ts.len()
        invariant
            k <= ts.len(),
            used.len() == k,
            forall|q: int| 0 <= q < k ==> !used[q],
        decreases ts.len() - k,
    {
        used.push(false);
        k = k + 1;
    }
    loop
        invariant
            tv == tviews(ts@),
            sv == seeds.deep_view(),
            used.len() == ts.len(),
            forall|y: Seq<char>| sv.contains(y) ==> #[trigger] r.deep_view().contains(y),
            forall|j: int| 0 <= j < r.len() ==> reachable(tv, sv, stop@, #[trigger] r.deep_view()[j]),
            forall|q: int| 0 <= q < ts.len() && used[q] ==> r.deep_view().contains(#[trigger] tv[q].to),
        ensures
            closed(tv, stop@, r.deep_view()),
            forall|y: Seq<char>| sv.contains(y) ==> #[trigger] r.deep_view().contains(y),
            forall|j: int| 0 <= j < r.len() ==> reachable(tv, sv, stop@, #[trigger] r.deep_view()[j]),
        decreases falses(used@),
    {
        let mut found: Option<usize> = None;
        let mut q: usize = 0;
        while q < ts.len()
            invariant
                tv == tviews(ts@),
                used.len() == ts.len(),
                q <= ts.len(),
                found is None ==> forall|p: int|
                    0 <= p < q && !used[p] && tv[p].from != pseudo() && tv[p].from != stop@ ==> !r.deep_view().contains(
                        #[trigger] tv[p].from,
                    ),
                found is Some ==> found->Some_0 < ts.len() && !used[found->Some_0 as int]
                    && tv[found->Some_0 as int].from != pseudo() && tv[found->Some_0 as int].from != stop@ && r.deep_view().contains(
                    tv[found->Some_0 as int].from,
                ),
            ensures
                found is None ==> forall|p: int|
                    0 <= p < ts.len() && !used[p] && tv[p].from != pseudo() && tv[p].from != stop@ ==> !r.deep_view().contains(
                        #[trigger] tv[p].from,
                    ),
                found is Some ==> found->Some_0 < ts.len() && !used[found->Some_0 as int]
                    && tv[found->Some_0 as int].from != pseudo() && tv[found->Some_0 as int].from != stop@ && r.deep_view().contains(
                    tv[found->Some_0 as int].from,
                ),
            decreases ts.len() - q,
        {
            assert(tv[q as int] == ts[q as int]@);
            if !used[q] && !eq_lit(&ts[q].from, "[*]") && !(ts[q].from == *stop) && find_id(&r, &ts[q].from).is_some() {
                found = Some(q);
                proof {
                    let j = choose|j: int| 0 <= j < r.len() && r[j]@ == ts[q as int].from@;
                    assert(r.deep_view()[j] == tv[q as int].from);
                }
                break;
            }
            q = q + 1;
        }
        match found {
            None => {
                assert forall|p: int|
                    0 <= p < tv.len() && tv[p].from != pseudo() && tv[p].from != stop@ && r.deep_view().contains(
                        #[trigger] tv[p].from,
                    ) implies r.deep_view().contains(tv[p].to) by {
                    if !used[p] {
                        assert(!r.deep_view().contains(tv[p].from));
                    }
                }
                break;
            },
            Some(q) => {
                proof {
                    lemma_falses_mark(used@, q as int);
                    let j = choose|j: int| 0 <= j < r.deep_view().len() && r.deep_view()[j] == tv[q as int].from;
                    let n = choose|n: nat| reach_n(tv, sv, stop@, r.deep_view()[j], n);
                    assert(reach_n(tv, sv, stop@, tv[q as int].to, n + 1));
                }
                used.set(q, true);
                assert(tv[q as int] == ts[q as int]@);
                match find_id(&r, &ts[q].to) {
                    Some(j) => {
                        assert(r.deep_view()[j as int] == tv[q as int].to);
                    },
                    None => {
                        let ghost before = r.deep_view();
                        r.push(clone_string(&ts[q].to));
                        assert(r.deep_view() =~= before.push(tv[q as int].to));
                        assert(r.deep_view()[before.len() as int] == tv[q as int].to);
                        assert forall|y: Seq<char>| before.contains(y) implies #[trigger] r.deep_view().contains(y) by {
                            let j = choose|j: int| 0 <= j < before.len() && before[j] == y;
                            assert(r.deep_view()[j] == y);
                        }
                    },
                }
            },
        }
    }
    proof {
        assert forall|x: Seq<char>| r.deep_view().contains(x) <==> reachable(tv, sv, stop@, x) by {
            if reachable(tv, sv, stop@, x) {
                let n = choose|n: nat| reach_n(tv, sv, stop@, x, n);
                lemma_closed_complete(tv, sv, stop@, r.deep_view(), x, n);
            }
        }
    }
    r
}

/// How serious a finding is: errors block execution, warnings do not.
#[derive(Debug, Clone, Copy, PartialEq, Eq, Structural)]
pub enum Severity {
    Error,
    Warning,
}

/// One structural problem of a definition.
#[derive(Debug)]
pub enum Finding {
    /// No transition leaves the initial pseudostate.
    NoInitialState,
    /// More than one transition leaves the initial pseudostate.
    MultipleInitialStates,
    /// A transition names a state that is not declared.
    UndeclaredState { state: String },
    /// A state that no path from the initial state reaches.
    UnreachableState { state: String },
    /// No path from the initial state ends in the terminal pseudostate.
    NoReachableTerminal,
    /// A state other than a fork with more than one unguarded transition.
    AmbiguousDefault { state: String },
    /// A state on a branch of `fork` from which the fork's matching join can
    /// no longer be reached (the branch's first state when the fork reaches
    /// no join at all).
    UnjoinedBranch { fork: String, state: String },
}

pub ghost enum FindingView {
    NoInitialState,
    MultipleInitialStates,
    UndeclaredState { state: Seq<char> },
    UnreachableState { state: Seq<char> },
    NoReachableTerminal,
    AmbiguousDefault { state: Seq<char> },
    UnjoinedBranch { fork: Seq<char>, state: Seq<char> },
}

impl View for Finding {
    type V = FindingView;

    open spec fn view(&self) -> FindingView {
        match self {
            Finding::NoInitialState => FindingView::NoInitialState,
            Finding::MultipleInitialStates => FindingView::MultipleInitialStates,
            Finding::UndeclaredState { state } => FindingView::UndeclaredState { state: state@ },
            Finding::UnreachableState { state } => FindingView::UnreachableState { state: state@ },
            Finding::NoReachableTerminal => FindingView::NoReachableTerminal,
            Finding::AmbiguousDefault { state } => FindingView::AmbiguousDefault { state: state@ },
            Finding::UnjoinedBranch { fork, state } => FindingView::UnjoinedBranch {
                fork: fork@,
                state: state@,
            },
        }
    }
}

pub open spec fn severity_of(f: FindingView) -> Severity {
    match f {
        FindingView::UnreachableState { .. } => Severity::Warning,
        _ => Severity::Error,
    }
}

impl Finding {
    pub fn severity(&self) -> (s: Severity)
        ensures
            s == severity_of(self@),
    {
        match self {
            Finding::UnreachableState { .. } => Severity::Warning,
            _ => Severity::Error,
        }
    }
}

pub open spec fn fviews(v: Seq<Finding>) -> Seq<FindingView> {
    v.map_values(|f: Finding| f@)
}

/// All findings of a validation, in the order the checks run.
pub struct ValidationResult {
    pub findings: Vec<Finding>,
}

impl ValidationResult {
    pub open spec fn has_error(&self) -> bool {
        exists|i: int| 0 <= i < self.findings.len() && severity_of(#[trigger] self.findings[i]@) == Severity::Error
    }

    /// Whether any finding blocks execution.
    pub fn has_errors(&self) -> (r: bool)
        ensures
            r == self.has_error(),
    {
        let mut i: usize = 0;
        while i < self.findings.len()
            invariant
                i <= self.findings.len(),
                forall|j: int| 0 <= j < i ==> severity_of(#[trigger] self.findings[j]@) != Severity::Error,
            decreases self.findings.len() - i,
        {
            if self.findings[i].severity() == Severity::Error {
                return true;
            }
            i = i + 1;
        }
        false
    }
}

/// The number of transitions out of the initial pseudostate.
pub open spec fn initial_count(ts: Seq<TransitionView>) -> nat
    decreases ts.len(),
{
    if ts.len() == 0 {
        0
    } else {
        initial_count(ts.drop_last()) + if ts.last().from == pseudo() {
            1nat
        } else {
            0nat
        }
    }
}

/// The targets of the transitions out of the initial pseudostate, in order.
pub open spec fn initial_targets(ts: Seq<TransitionView>) -> Seq<Seq<char>>
    decreases ts.len(),
{
    if ts.len() == 0 {
        seq![]
    } else if ts.last().from == pseudo() {
        initial_targets(ts.drop_last()).push(ts.last().to)
    } else {
        initial_targets(ts.drop_last())
    }
}

/// A state that some path from the initial state reaches.
pub open spec fn live(d: WorkflowDefinition, x: Seq<char>) -> bool {
    reachable(d.transition_views(), initial_targets(d.transition_views()), pseudo(), x)
}

pub open spec fn initial_findings(d: WorkflowDefinition) -> Seq<FindingView> {
    let c = initial_count(d.transition_views());
    if c == 0 {
        seq![FindingView::NoInitialState]
    } else if c > 1 {
        seq![FindingView::MultipleInitialStates]
    } else {
        seq![]
    }
}

pub open spec fn undeclared(d: WorkflowDefinition, x: Seq<char>) -> Seq<FindingView> {
    if x != pseudo() && !d.has_state(x) {
        seq![FindingView::UndeclaredState { state: x }]
    } else {
        seq![]
    }
}

/// Undeclared endpoints of the first `n` transitions, source before target.
pub open spec fn undeclared_findings(d: WorkflowDefinition, n: int) -> Seq<FindingView>
    decreases n,
{
    if n <= 0 {
        seq![]
    } else {
        let t = d.transitions[n - 1];
        undeclared_findings(d, n - 1) + undeclared(d, t.from@) + undeclared(d, t.to@)
    }
}

/// Unreachable states among the first `n` states.
pub open spec fn unreachable_findings(d: WorkflowDefinition, n: int) -> Seq<FindingView>
    decreases n,
{
    if n <= 0 {
        seq![]
    } else {
        let id = d.states[n - 1].id@;
        unreachable_findings(d, n - 1) + if live(d, id) {
            seq![]
        } else {
            seq![FindingView::UnreachableState { state: id }]
        }
    }
}

/// Some path from the initial state ends in the terminal pseudostate.
pub open spec fn terminal_reachable(d: WorkflowDefinition) -> bool {
    exists|k: int|
        0 <= k < d.transitions.len() && (#[trigger] d.transitions[k]).to@ == pseudo()
            && d.transitions[k].from@ != pseudo() && live(d, d.transitions[k].from@)
}

/// Non-fork states among the first `n` with two or more unguarded transitions.
pub open spec fn default_findings(d: WorkflowDefinition, n: int) -> Seq<FindingView>
    decreases n,
{
    if n <= 0 {
        seq![]
    } else {
        let s = d.states[n - 1];
        default_findings(d, n - 1) + if s.kind != StateKind::Fork && unguarded_out(
            d.transition_views(),
            s.id@,
        ) >= 2 {
            seq![FindingView::AmbiguousDefault { state: s.id@ }]
        } else {
            seq![]
        }
    }
}

/// The join that matches fork `f`: the first join state, from the `j`-th
/// on in state order, that `f` can reach.
pub open spec fn matching_join_from(d: WorkflowDefinition, f: Seq<char>, j: int) -> Option<Seq<char>>
    decreases d.states.len() - j,
{
    if j >= d.states.len() || j < 0 {
        None
    } else if d.states[j].kind == StateKind::Join && reachable(
        d.transition_views(),
        seq![f],
        pseudo(),
        d.states[j].id@,
    ) {
        Some(d.states[j].id@)
    } else {
        matching_join_from(d, f, j + 1)
    }
}

pub open spec fn matching_join(d: WorkflowDefinition, f: Seq<char>) -> Option<Seq<char>> {
    matching_join_from(d, f, 0)
}

/// Among the first `n` states, those that the branch starting at `b` reaches
/// before the join `jn` and from which `jn` can no longer be reached.
pub open spec fn stray_findings(d: WorkflowDefinition, f: Seq<char>, jn: Seq<char>, b: Seq<char>, n: int) -> Seq<FindingView>
    decreases n,
{
    if n <= 0 {
        seq![]
    } else {
        let x = d.states[n - 1].id@;
        stray_findings(d, f, jn, b, n - 1) + if reachable(d.transition_views(), seq![b], jn, x)
            && !reachable(d.transition_views(), seq![x], jn, jn) {
            seq![FindingView::UnjoinedBranch { fork: f, state: x }]
        } else {
            seq![]
        }
    }
}

/// The findings on the branches among the first `m` transitions out of
/// fork `f`.
pub open spec fn branch_findings(d: WorkflowDefinition, f: Seq<char>, m: int) -> Seq<FindingView>
    decreases m,
{
    if m <= 0 {
        seq![]
    } else {
        let t = d.transitions[m - 1];
        branch_findings(d, f, m - 1) + if t.from@ != f {
            seq![]
        } else {
            match matching_join(d, f) {
                None => seq![FindingView::UnjoinedBranch { fork: f, state: t.to@ }],
                Some(jn) => stray_findings(d, f, jn, t.to@, d.states.len() as int),
            }
        }
    }
}

/// Unjoined branches of the forks among the first `n` states.
pub open spec fn fork_findings(d: WorkflowDefinition, n: int) -> Seq<FindingView>
    decreases n,
{
    if n <= 0 {
        seq![]
    } else {
        let s = d.states[n - 1];
        fork_findings(d, n - 1) + if s.kind == StateKind::Fork {
            branch_findings(d, s.id@, d.transitions.len() as int)
        } else {
            seq![]
        }
    }
}

/// Every finding of `d`, in the order the checks run.
pub open spec fn findings_of(d: WorkflowDefinition) -> Seq<FindingView> {
    initial_findings(d) + undeclared_findings(d, d.transitions.len() as int)
        + unreachable_findings(d, d.states.len() as int) + (if terminal_reachable(d) {
        seq![]
    } else {
        seq![FindingView::NoReachableTerminal]
    }) + default_findings(d, d.states.len() as int) + fork_findings(d, d.states.len() as int)
}

fn push_finding(v: &mut Vec<Finding>, f: Finding)
    ensures
        fviews(final(v)@) == fviews(old(v)@).push(f@),
{
    let ghost fv = f@;
    v.push(f);
    assert(fviews(v@) =~= fviews(old(v)@).push(fv));
}

/// Whether `d` declares a state named `x`.
pub fn has_state_named(d: &WorkflowDefinition, x: &String) -> (r: bool)
    ensures
        r == d.has_state(x@),
{
    let mut j: usize = 0;
    while j < d.states.len()
        invariant
            j <= d.states.len(),
            forall|q: int| 0 <= q < j ==> d.states[q].id@ != x@,
        decreases d.states.len() - j,
    {
        if d.states[j].id == *x {
            return true;
        }
        j = j + 1;
    }
    false
}

/// The targets of the initial transitions and how many there are.
fn initial_edges(ts: &Vec<Transition>) -> (r: (usize, Vec<String>))
    ensures
        r.0 == initial_count(tviews(ts@)),
        r.1.deep_view() == initial_targets(tviews(ts@)),
{
    let ghost tv = tviews(ts@);
    let mut c: usize = 0;
    let mut out: Vec<String> = Vec::new();
    let mut k: usize = 0;
    while k < ts.len()
        invariant
            tv == tviews(ts@),
            k <= ts.len(),
            c <= k,
            c == initial_count(tv.subrange(0, k as int)),
            out.deep_view() == initial_targets(tv.subrange(0, k as int)),
        decreases ts.len() - k,
    {
        assert(tv.subrange(0, k + 1).drop_last() =~= tv.subrange(0, k as int));
        assert(tv[k as int] == ts[k as int]@);
        if eq_lit(&ts[k].from, "[*]") {
            c = c + 1;
            let ghost before = out.deep_view();
            let t = clone_string(&ts[k].to);
            out.push(t);
            assert(out.deep_view() =~= before.push(tv[k as int].to));
        }
        k = k + 1;
    }
    assert(tv.subrange(0, ts.len() as int) =~= tv);
    (c, out)
}

/// Whether `target` can be reached from `x` without leaving `stop`.
fn reaches(d: &WorkflowDefinition, x: &String, target: &String, stop: &String) -> (r: bool)
    ensures
        r == reachable(d.transition_views(), seq![x@], stop@, target@),
{
    let mut seeds: Vec<String> = Vec::new();
    seeds.push(clone_string(x));
    assert(seeds.deep_view() =~= seq![x@]);
    let reach = reach_set(&d.transitions, &seeds, stop);
    match find_id(&reach, target) {
        Some(q) => {
            assert(reach.deep_view()[q as int] == target@);
            assert(reach.deep_view().contains(target@));
            true
        },
        None => false,
    }
}

fn matching_join_exec(d: &WorkflowDefinition, f: &String) -> (r: Option<String>)
    ensures
        crate::definition::opt_view(r) == matching_join(*d, f@),
{
    let pseudo_id = String::from_str("[*]");
    let mut j: usize = 0;
    while j < d.states.len()
        invariant
            j <= d.states.len(),
            pseudo_id@ == pseudo(),
            matching_join(*d, f@) == matching_join_from(*d, f@, j as int),
        decreases d.states.len() - j,
    {
        if d.states[j].kind == StateKind::Join && reaches(d, f, &d.states[j].id, &pseudo_id) {
            return Some(clone_string(&d.states[j].id));
        }
        j = j + 1;
    }
    None
}

/// Appends the findings on the branch of fork `f` that starts at `b`, whose
/// matching join is `jn`.
fn push_strays(out: &mut Vec<Finding>, d: &WorkflowDefinition, f: &String, jn: &String, b: &String)
    ensures
        fviews(final(out)@) == fviews(old(out)@) + stray_findings(*d, f@, jn@, b@, d.states.len() as int),
{
    let mut j: usize = 0;
    while j < d.states.len()
        invariant
            j <= d.states.len(),
            fviews(out@) == fviews(old(out)@) + stray_findings(*d, f@, jn@, b@, j as int),
        decreases d.states.len() - j,
    {
        let x = &d.states[j].id;
        if reaches(d, b, x, jn) && !reaches(d, x, jn, jn) {
            push_finding(out, Finding::UnjoinedBranch { fork: clone_string(f), state: clone_string(x) });
        }
        assert(fviews(out@) =~= fviews(old(out)@) + stray_findings(*d, f@, jn@, b@, j + 1));
        j = j + 1;
    }
}

/// Runs every structural check on `d` and reports all findings: the count of
/// initial transitions, undeclared states, states unreachable from the initial
/// state (warnings), a reachable terminal transition, unguarded transitions of
/// non-fork states, and states on fork branches that can no longer reach the
/// fork's matching join.
pub fn validate(d: &WorkflowDefinition) -> (r: ValidationResult)
    ensures
        fviews(r.findings@) == findings_of(*d),
{
    let ghost tv = d.transition_views();
    let mut out: Vec<Finding> = Vec::new();
    let (count, targets) = initial_edges(&d.transitions);
    if count == 0 {
        push_finding(&mut out, Finding::NoInitialState);
    } else if count > 1 {
        push_finding(&mut out, Finding::MultipleInitialStates);
    }
    assert(fviews(out@) =~= initial_findings(*d));
    let ghost acc0 = fviews(out@);

    let mut k: usize = 0;
    while k < d.transitions.len()
        invariant
            k <= d.transitions.len(),
            fviews(out@) == acc0 + undeclared_findings(*d, k as int),
        decreases d.transitions.len() - k,
    {
        let ghost before = fviews(out@);
        let t = &d.transitions[k];
        if !eq_lit(&t.from, "[*]") && !has_state_named(d, &t.from) {
            push_finding(&mut out, Finding::UndeclaredState { state: clone_string(&t.from) });
        }
        let ghost mid = fviews(out@);
        assert(mid == before + undeclared(*d, t.from@));
        if !eq_lit(&t.to, "[*]") && !has_state_named(d, &t.to) {
            push_finding(&mut out, Finding::UndeclaredState { state: clone_string(&t.to) });
        }
        assert(fviews(out@) =~= acc0 + undeclared_findings(*d, k + 1));
        k = k + 1;
    }
    let ghost acc1 = fviews(out@);

    let live_set = reach_set(&d.transitions, &targets, &String::from_str("[*]"));
    let mut j: usize = 0;
    while j < d.states.len()
        invariant
            j <= d.states.len(),
            forall|x: Seq<char>| live_set.deep_view().contains(x) <==> live(*d, x),
            fviews(out@) == acc1 + unreachable_findings(*d, j as int),
        decreases d.states.len() - j,
    {
        let ghost before = fviews(out@);
        match find_id(&live_set, &d.states[j].id) {
            Some(q) => {
                assert(live_set.deep_view()[q as int] == d.states[j as int].id@);
            },
            None => {
                push_finding(&mut out, Finding::UnreachableState { state: clone_string(&d.states[j].id) });
            },
        }
        assert(fviews(out@) =~= acc1 + unreachable_findings(*d, j + 1));
        j = j + 1;
    }
    let ghost acc2 = fviews(out@);

    let mut found = false;
    let mut k: usize = 0;
    while k < d.transitions.len()
        invariant
            k <= d.transitions.len(),
            forall|x: Seq<char>| live_set.deep_view().contains(x) <==> live(*d, x),
            found ==> terminal_reachable(*d),
            !found ==> forall|q: int| 0 <= q < k ==> !((#[trigger] d.transitions[q]).to@ == pseudo()
                && d.transitions[q].from@ != pseudo() && live(*d, d.transitions[q].from@)),
        decreases d.transitions.len() - k,
    {
        let t = &d.transitions[k];
        if !found && eq_lit(&t.to, "[*]") && !eq_lit(&t.from, "[*]") {
            match find_id(&live_set, &t.from) {
                Some(q) => {
                    assert(live_set.deep_view()[q as int] == t.from@);
                    found = true;
                },
                None => {},
            }
        }
        k = k + 1;
    }
    if !found {
        push_finding(&mut out, Finding::NoReachableTerminal);
    }
    let ghost acc3 = fviews(out@);
    assert(acc3 == acc2 + (if terminal_reachable(*d) { seq![] } else { seq![FindingView::NoReachableTerminal] }));

    let mut j: usize = 0;
    while j < d.states.len()
        invariant
            j <= d.states.len(),
            tv == d.transition_views(),
            fviews(out@) == acc3 + default_findings(*d, j as int),
        decreases d.states.len() - j,
    {
        let s = &d.states[j];
        if s.kind != StateKind::Fork && count_unguarded(&d.transitions, &s.id) >= 2 {
            push_finding(&mut out, Finding::AmbiguousDefault { state: clone_string(&s.id) });
        }
        assert(fviews(out@) =~= acc3 + default_findings(*d, j + 1));
        j = j + 1;
    }
    let ghost acc4 = fviews(out@);

    let mut j: usize = 0;
    while j < d.states.len()
        invariant
            j <= d.states.len(),
            fviews(out@) == acc4 + fork_findings(*d, j as int),
        decreases d.states.len() - j,
    {
        let s = &d.states[j];
        let ghost before = fviews(out@);
        if s.kind == StateKind::Fork {
            let mj = matching_join_exec(d, &s.id);
            let mut k: usize = 0;
            while k < d.transitions.len()
                invariant
                    j < d.states.len(),
                    s == &d.states[j as int],
                    crate::definition::opt_view(mj) == matching_join(*d, s.id@),
                    k <= d.transitions.len(),
                    fviews(out@) == before + branch_findings(*d, s.id@, k as int),
                decreases d.transitions.len() - k,
            {
                let t = &d.transitions[k];
                if t.from == s.id {
                    match &mj {
                        None => {
                            push_finding(&mut out, Finding::UnjoinedBranch {
                                fork: clone_string(&s.id),
                                state: clone_string(&t.to),
                            });
                        },
                        Some(jn) => {
                            push_strays(&mut out, d, &s.id, jn, &t.to);
                        },
                    }
                }
                assert(fviews(out@) =~= before + branch_findings(*d, s.id@, k + 1));
                k = k + 1;
            }
        }
        assert(fviews(out@) =~= acc4 + fork_findings(*d, j + 1));
        j = j + 1;
    }
    proof {
        assert(fviews(out@) =~= findings_of(*d));
    }
    ValidationResult { findings: out }
}

} // verus!
