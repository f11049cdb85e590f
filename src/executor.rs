//! Runs of a workflow definition: positions, history and lifecycle.

use crate::definition::{pseudo, State, StateKind, Transition, TransitionView, tviews, WorkflowDefinition};
use crate::parser::{clone_string, eq_lit, find_id};
use crate::resolver::MemoryWorkflowStorage;
use crate::validator::{findings_of, reach_set, reachable, severity_of, validate, Severity};
use vstd::prelude::*;

verus! {

/// Lifecycle of a run. `Completed`, `Cancelled` and `Failed` are final.
#[derive(Debug, Clone, Copy, PartialEq, Eq, Structural)]
pub enum RunStatus {
    Running,
    Suspended,
    Completed,
    Cancelled,
    Failed,
}

/// Why a run failed.
#[derive(Debug)]
pub enum FailureReason {
    /// No transition out of `state` could fire.
    StuckState { state: String },
    /// An action of `state` reported an error.
    ActionFailed { state: String, message: String },
}

/// A misuse of a run, or a definition that may not run; the run is unchanged.
#[derive(Debug, Clone, Copy, PartialEq, Eq, Structural)]
pub enum RunError {
    /// The operation is not allowed in the run's current status.
    InvalidStateTransition { status: RunStatus },
    /// The definition has error findings.
    InvalidDefinition,
    /// No workflow is stored under the name.
    UnknownWorkflow,
    /// No run has the id.
    UnknownRun,
    /// Every run id has been handed out.
    IdsExhausted,
}

/// A state that a run entered, when, and when it left it.
#[derive(Debug)]
pub struct HistoryEntry {
    pub state_id: String,
    pub entered_at: u64,
    pub exited_at: Option<u64>,
}

#[derive(Debug)]
pub struct WorkflowRun {
    pub id: u64,
    pub definition_name: String,
    /// The occupied states: one, except inside a forked region; the
    /// pseudostate before the first step.
    pub current_states: Vec<String>,
    /// Real states only, in order of entry.
    pub history: Vec<HistoryEntry>,
    pub status: RunStatus,
    pub failure: Option<FailureReason>,
}

pub open spec fn is_final(s: RunStatus) -> bool {
    s == RunStatus::Completed || s == RunStatus::Cancelled || s == RunStatus::Failed
}

/// A transition whose guard is absent or among the satisfied conditions.
pub open spec fn guard_ok(t: TransitionView, sat: Seq<Seq<char>>) -> bool {
    match t.guard {
        None => true,
        Some(g) => sat.contains(g),
    }
}

/// The index of the first transition at or after `k` that leaves `s` and may
/// fire; `ts.len()` if there is none.
pub open spec fn first_enabled(ts: Seq<TransitionView>, s: Seq<char>, sat: Seq<Seq<char>>, k: int) -> int
    decreases ts.len() - k,
{
    if k >= ts.len() || k < 0 {
        ts.len() as int
    } else if ts[k].from == s && guard_ok(ts[k], sat) {
        k
    } else {
        first_enabled(ts, s, sat, k + 1)
    }
}

/// The targets of all transitions out of `s`, in order.
pub open spec fn out_targets(ts: Seq<TransitionView>, s: Seq<char>) -> Seq<Seq<char>>
    decreases ts.len(),
{
    if ts.len() == 0 {
        seq![]
    } else if ts.last().from == s {
        out_targets(ts.drop_last(), s).push(ts.last().to)
    } else {
        out_targets(ts.drop_last(), s)
    }
}

/// The kind of the first state at or after `j` named `s`; `Normal` if none.
pub open spec fn kind_from(states: Seq<State>, s: Seq<char>, j: int) -> StateKind
    decreases states.len() - j,
{
    if j >= states.len() || j < 0 {
        StateKind::Normal
    } else if states[j].id@ == s {
        states[j].kind
    } else {
        kind_from(states, s, j + 1)
    }
}

pub open spec fn kind_in(d: WorkflowDefinition, s: Seq<char>) -> StateKind {
    kind_from(d.states@, s, 0)
}

fn kind_exec(d: &WorkflowDefinition, s: &String) -> (k: StateKind)
    ensures
        k == kind_in(*d, s@),
{
    let mut j: usize = 0;
    while j < d.states.len()
        invariant
            j <= d.states.len(),
            kind_from(d.states@, s@, 0) == kind_from(d.states@, s@, j as int),
        decreases d.states.len() - j,
    {
        if d.states[j].id == *s {
            return d.states[j].kind;
        }
        j = j + 1;
    }
    StateKind::Normal
}

fn find_enabled(ts: &Vec<Transition>, s: &String, sat: &Vec<String>) -> (r: usize)
    ensures
        r as int == first_enabled(tviews(ts@), s@, sat.deep_view(), 0),
        r <= ts.len(),
{
    let ghost tv = tviews(ts@);
    let mut k: usize = 0;
    while k < ts.len()
        invariant
            tv == tviews(ts@),
            k <= ts.len(),
            first_enabled(tv, s@, sat.deep_view(), 0) == first_enabled(tv, s@, sat.deep_view(), k as int),
        decreases ts.len() - k,
    {
        assert(tv[k as int] == ts[k as int]@);
        if ts[k].from == *s {
            let ok = match &ts[k].guard {
                None => true,
                Some(g) => match find_id(sat, g) {
                    Some(q) => {
                        assert(sat.deep_view()[q as int] == g@);
                        true
                    },
                    None => false,
                },
            };
            if ok {
                return k;
            }
        }
        k = k + 1;
    }
    k
}

fn targets_of(ts: &Vec<Transition>, s: &String) -> (r: Vec<String>)
    ensures
        r.deep_view() == out_targets(tviews(ts@), s@),
{
    let ghost tv = tviews(ts@);
    let mut out: Vec<String> = Vec::new();
    let mut k: usize = 0;
    while k < ts.len()
        invariant
            tv == tviews(ts@),
            k <= ts.len(),
            out.deep_view() == out_targets(tv.subrange(0, k as int), s@),
        decreases ts.len() - k,
    {
        assert(tv.subrange(0, k + 1).drop_last() =~= tv.subrange(0, k as int));
        assert(tv[k as int] == ts[k as int]@);
        if ts[k].from == *s {
            let ghost before = out.deep_view();
            let t = clone_string(&ts[k].to);
            out.push(t);
            assert(out.deep_view() =~= before.push(tv[k as int].to));
        }
        k = k + 1;
    }
    assert(tv.subrange(0, ts.len() as int) =~= tv);
    out
}

/// Where state `s` moves in one step: every target for a fork (stuck if it
/// has none), else the target of the first transition that may fire; `None`
/// when stuck.
pub open spec fn step_targets(d: WorkflowDefinition, s: Seq<char>, sat: Seq<Seq<char>>) -> Option<Seq<Seq<char>>> {
    let tv = d.transition_views();
    if kind_in(d, s) == StateKind::Fork {
        if out_targets(tv, s).len() == 0 {
            None
        } else {
            Some(out_targets(tv, s))
        }
    } else {
        let k = first_enabled(tv, s, sat, 0);
        if k < tv.len() {
            Some(seq![tv[k].to])
        } else {
            None
        }
    }
}

/// The `i`-th occupied state is a join that another occupied state can still
/// reach, so it waits.
pub open spec fn waits(d: WorkflowDefinition, cur: Seq<Seq<char>>, i: int) -> bool {
    &&& kind_in(d, cur[i]) == StateKind::Join
    &&& exists|j: int|
        0 <= j < cur.len() && j != i && #[trigger] cur[j] != cur[i] && reachable(
            d.transition_views(),
            seq![cur[j]],
            pseudo(),
            cur[i],
        )
}

/// The waiting states among the first `n` occupied ones.
pub open spec fn waiting(d: WorkflowDefinition, cur: Seq<Seq<char>>, n: int) -> Seq<Seq<char>>
    decreases n,
{
    if n <= 0 {
        seq![]
    } else {
        waiting(d, cur, n - 1) + if waits(d, cur, n - 1) {
            seq![cur[n - 1]]
        } else {
            seq![]
        }
    }
}

/// The index of the first of the occupied states that neither waits nor can
/// move; `cur.len()` if there is none.
pub open spec fn stuck_index(d: WorkflowDefinition, cur: Seq<Seq<char>>, sat: Seq<Seq<char>>, i: int) -> int
    decreases cur.len() - i,
{
    if i >= cur.len() || i < 0 {
        cur.len() as int
    } else if !waits(d, cur, i) && step_targets(d, cur[i], sat) is None {
        i
    } else {
        stuck_index(d, cur, sat, i + 1)
    }
}

/// `ts` without the pseudostate.
pub open spec fn without_pseudo(ts: Seq<Seq<char>>) -> Seq<Seq<char>>
    decreases ts.len(),
{
    if ts.len() == 0 {
        seq![]
    } else {
        without_pseudo(ts.drop_last()) + if ts.last() != pseudo() {
            seq![ts.last()]
        } else {
            seq![]
        }
    }
}

/// The states that the first `n` occupied states move to (terminal
/// pseudostates dropped), in order.
pub open spec fn moving(d: WorkflowDefinition, cur: Seq<Seq<char>>, sat: Seq<Seq<char>>, n: int) -> Seq<Seq<char>>
    decreases n,
{
    if n <= 0 {
        seq![]
    } else {
        moving(d, cur, sat, n - 1) + if !waits(d, cur, n - 1) && step_targets(d, cur[n - 1], sat) is Some {
            without_pseudo(step_targets(d, cur[n - 1], sat)->Some_0)
        } else {
            seq![]
        }
    }
}

/// `s` without repeats, first occurrences kept.
pub open spec fn dedupe(s: Seq<Seq<char>>) -> Seq<Seq<char>>
    decreases s.len(),
{
    if s.len() == 0 {
        seq![]
    } else {
        let p = dedupe(s.drop_last());
        if p.contains(s.last()) {
            p
        } else {
            p.push(s.last())
        }
    }
}

pub open spec fn hist_ids(h: Seq<HistoryEntry>) -> Seq<Seq<char>> {
    h.map_values(|e: HistoryEntry| e.state_id@)
}

/// Appends `x` unless it is there already.
pub(crate) fn push_unique(v: &mut Vec<String>, x: &String)
    ensures
        final(v).len() >= old(v).len(),
        final(v).deep_view() == (if old(v).deep_view().contains(x@) {
            old(v).deep_view()
        } else {
            old(v).deep_view().push(x@)
        }),
{
    match find_id(v, x) {
        Some(j) => {
            assert(v.deep_view()[j as int] == x@);
        },
        None => {
            let ghost before = v.deep_view();
            v.push(clone_string(x));
            assert(v.deep_view() =~= before.push(x@));
        },
    }
}

proof fn lemma_dedupe_push(s: Seq<Seq<char>>, x: Seq<char>)
    ensures
        dedupe(s.push(x)) == (if dedupe(s).contains(x) {
            dedupe(s)
        } else {
            dedupe(s).push(x)
        }),
{
    assert(s.push(x).drop_last() =~= s);
}

fn waits_exec(d: &WorkflowDefinition, cur: &Vec<String>, i: usize) -> (r: bool)
    requires
        i < cur.len(),
    ensures
        r == waits(*d, cur.deep_view(), i as int),
{
    let ghost cv = cur.deep_view();
    if kind_exec(d, &cur[i]) != StateKind::Join {
        return false;
    }
    let mut j: usize = 0;
    while j < cur.len()
        invariant
            cv == cur.deep_view(),
            i < cur.len(),
            j <= cur.len(),
            kind_in(*d, cv[i as int]) == StateKind::Join,
            forall|q: int| 0 <= q < j ==> !(q != i && #[trigger] cv[q] != cv[i as int] && reachable(
                d.transition_views(),
                seq![cv[q]],
                pseudo(),
                cv[i as int],
            )),
        decreases cur.len() - j,
    {
        assert(cv[j as int] == cur[j as int]@ && cv[i as int] == cur[i as int]@);
        if j != i && !(cur[j] == cur[i]) {
            let mut seeds: Vec<String> = Vec::new();
            seeds.push(clone_string(&cur[j]));
            assert(seeds.deep_view() =~= seq![cv[j as int]]);
            let r = reach_set(&d.transitions, &seeds, &String::from_str("[*]"));
            match find_id(&r, &cur[i]) {
                Some(q) => {
                    assert(r.deep_view()[q as int] == cv[i as int]);
                    assert(r.deep_view().contains(cv[i as int]));
                    assert(j != i && cv[j as int] != cv[i as int] && reachable(
                        d.transition_views(),
                        seq![cv[j as int]],
                        pseudo(),
                        cv[i as int],
                    ));
                    return true;
                },
                None => {},
            }
        }
        j = j + 1;
    }
    false
}

fn step_exec(d: &WorkflowDefinition, s: &String, sat: &Vec<String>) -> (r: Option<Vec<String>>)
    ensures
        match r {
            Some(v) => step_targets(*d, s@, sat.deep_view()) == Some(v.deep_view()),
            None => step_targets(*d, s@, sat.deep_view()) is None,
        },
{
    if kind_exec(d, s) == StateKind::Fork {
        let v = targets_of(&d.transitions, s);
        if v.len() == 0 {
            None
        } else {
            Some(v)
        }
    } else {
        let k = find_enabled(&d.transitions, s, sat);
        if k < d.transitions.len() {
            let mut v: Vec<String> = Vec::new();
            v.push(clone_string(&d.transitions[k].to));
            assert(d.transition_views()[k as int] == d.transitions[k as int]@);
            assert(v.deep_view() =~= seq![d.transition_views()[k as int].to]);
            Some(v)
        } else {
            None
        }
    }
}

/// What one step of a running run does, given the satisfied guard conditions.
pub open spec fn advanced(d: WorkflowDefinition, sat: Seq<Seq<char>>, old_run: WorkflowRun, new_run: WorkflowRun) -> bool {
    advanced_from(
        d,
        sat,
        old_run.id,
        old_run.definition_name@,
        old_run.current_states.deep_view(),
        hist_ids(old_run.history@),
        new_run,
    )
}

/// One step from a run with this id, name, occupied states and history.
pub open spec fn advanced_from(
    d: WorkflowDefinition,
    sat: Seq<Seq<char>>,
    id: u64,
    name: Seq<char>,
    cur: Seq<Seq<char>>,
    hids: Seq<Seq<char>>,
    new_run: WorkflowRun,
) -> bool {
    let si = stuck_index(d, cur, sat, 0);
    let w = dedupe(waiting(d, cur, cur.len() as int));
    let nx = dedupe(waiting(d, cur, cur.len() as int) + moving(d, cur, sat, cur.len() as int));
    &&& new_run.id == id
    &&& new_run.definition_name@ == name
    &&& if si < cur.len() {
        &&& new_run.status == RunStatus::Failed
        &&& match new_run.failure {
            Some(FailureReason::StuckState { state }) => state@ == cur[si],
            _ => false,
        }
        &&& new_run.current_states.deep_view() == cur
        &&& hist_ids(new_run.history@) == hids
    } else {
        &&& new_run.current_states.deep_view() == nx
        &&& hist_ids(new_run.history@) == hids + nx.subrange(w.len() as int, nx.len() as int)
        &&& new_run.status == if nx.len() == 0 {
            RunStatus::Completed
        } else {
            RunStatus::Running
        }
        &&& new_run.failure is None
    }
}

fn clone_strings(v: &Vec<String>) -> (r: Vec<String>)
    ensures
        r.deep_view() == v.deep_view(),
{
    let mut out: Vec<String> = Vec::new();
    let mut i: usize = 0;
    while i < v.len()
        invariant
            i <= v.len(),
            out.len() == i,
            out.deep_view() == v.deep_view().subrange(0, i as int),
        decreases v.len() - i,
    {
        let ghost before = out.deep_view();
        let c = clone_string(&v[i]);
        out.push(c);
        assert(out.deep_view() =~= before.push(c@));
        assert(v.deep_view()[i as int] == v[i as int]@);
        assert(out.deep_view() =~= v.deep_view().subrange(0, i + 1));
        i = i + 1;
    }
    assert(v.deep_view().subrange(0, v.len() as int) =~= v.deep_view());
    out
}

/// Records that the run left `s`: its last open entry gets `now` as exit time.
fn close_entry(h: &mut Vec<HistoryEntry>, s: &String, now: u64)
    ensures
        hist_ids(final(h)@) == hist_ids(old(h)@),
{
    let mut i: usize = h.len();
    while i > 0
        invariant
            i <= h.len(),
            h@ == old(h)@,
        decreases i,
    {
        i = i - 1;
        if h[i].state_id == *s && h[i].exited_at.is_none() {
            let e = HistoryEntry { state_id: clone_string(&h[i].state_id), entered_at: h[i].entered_at, exited_at: Some(now) };
            let ghost before = h@;
            let ghost ev = e;
            h.set(i, e);
            assert(h@ == before.update(i as int, ev));
            assert(ev.state_id@ == before[i as int].state_id@);
            assert(hist_ids(h@) =~= hist_ids(before));
            return;
        }
    }
}

fn push_entry(h: &mut Vec<HistoryEntry>, s: &String, now: u64)
    ensures
        hist_ids(final(h)@) == hist_ids(old(h)@).push(s@),
{
    let e = HistoryEntry { state_id: clone_string(s), entered_at: now, exited_at: None };
    let ghost ev = e;
    h.push(e);
    assert(hist_ids(h@) =~= hist_ids(old(h)@).push(ev.state_id@));
}

impl WorkflowRun {
    /// A run of `d` that has not yet left the initial pseudostate.
    pub fn new(id: u64, d: &WorkflowDefinition) -> (r: WorkflowRun)
        ensures
            r.id == id,
            r.definition_name@ == d.name@,
            r.current_states.deep_view() == seq![pseudo()],
            r.history.len() == 0,
            r.status == RunStatus::Running,
            r.failure is None,
    {
        let mut cur: Vec<String> = Vec::new();
        cur.push(String::from_str("[*]"));
        assert(cur.deep_view() =~= seq![pseudo()]);
        WorkflowRun {
            id,
            definition_name: clone_string(&d.name),
            current_states: cur,
            history: Vec::new(),
            status: RunStatus::Running,
            failure: None,
        }
    }

    /// Moves every occupied state once. A fork enters all its targets; a
    /// join waits while another occupied state can still reach it; any other
    /// state takes its first transition whose guard is absent or listed in
    /// `satisfied`. A state that cannot move fails the run; a run whose every
    /// branch reached the terminal pseudostate completes.
    pub fn advance(&mut self, d: &WorkflowDefinition, satisfied: &Vec<String>, now: u64) -> (r: Result<(), RunError>)
        ensures
            old(self).status != RunStatus::Running ==> r == Err::<(), RunError>(
                RunError::InvalidStateTransition { status: old(self).status },
            ) && *final(self) == *old(self),
            old(self).status == RunStatus::Running ==> r is Ok && advanced(
                *d,
                satisfied.deep_view(),
                *old(self),
                *final(self),
            ),
    {
        if self.status != RunStatus::Running {
            return Err(RunError::InvalidStateTransition { status: self.status });
        }
        let ghost sat = satisfied.deep_view();
        let cur = clone_strings(&self.current_states);
        let ghost cv = cur.deep_view();
        let ghost old_ids = hist_ids(self.history@);
        let mut i: usize = 0;
        while i < cur.len()
            invariant
                *self == *old(self),
                old(self).status == RunStatus::Running,
                cv == old(self).current_states.deep_view(),
                cv == cur.deep_view(),
                sat == satisfied.deep_view(),
                i <= cur.len(),
                stuck_index(*d, cv, sat, 0) == stuck_index(*d, cv, sat, i as int),
            decreases cur.len() - i,
        {
            assert(cv[i as int] == cur[i as int]@);
            if !waits_exec(d, &cur, i) && step_exec(d, &cur[i], satisfied).is_none() {
                self.status = RunStatus::Failed;
                self.failure = Some(FailureReason::StuckState { state: clone_string(&cur[i]) });
                return Ok(());
            }
            i = i + 1;
        }
        let mut next: Vec<String> = Vec::new();
        let mut i: usize = 0;
        while i < cur.len()
            invariant
                *self == *old(self),
                cv == old(self).current_states.deep_view(),
                old_ids == hist_ids(old(self).history@),
                cv == cur.deep_view(),
                i <= cur.len(),
                next.deep_view() == dedupe(waiting(*d, cv, i as int)),
            decreases cur.len() - i,
        {
            assert(cv[i as int] == cur[i as int]@);
            if waits_exec(d, &cur, i) {
                proof {
                    lemma_dedupe_push(waiting(*d, cv, i as int), cv[i as int]);
                    assert(waiting(*d, cv, i + 1) =~= waiting(*d, cv, i as int).push(cv[i as int]));
                }
                push_unique(&mut next, &cur[i]);
            } else {
                assert(waiting(*d, cv, i + 1) =~= waiting(*d, cv, i as int));
            }
            i = i + 1;
        }
        let wlen = next.len();
        let ghost wv = waiting(*d, cv, cv.len() as int);
        assert(next.deep_view().subrange(wlen as int, next.len() as int) =~= seq![]);
        assert(old_ids + seq![] =~= old_ids);
        let mut i: usize = 0;
        while i < cur.len()
            invariant
                cv == old(self).current_states.deep_view(),
                old_ids == hist_ids(old(self).history@),
                stuck_index(*d, cv, sat, 0) == cv.len(),
                cv == cur.deep_view(),
                sat == satisfied.deep_view(),
                wv == waiting(*d, cv, cv.len() as int),
                i <= cur.len(),
                wlen <= next.len(),
                dedupe(wv).len() == wlen,
                next.deep_view() == dedupe(wv + moving(*d, cv, sat, i as int)),
                hist_ids(self.history@) == old_ids + next.deep_view().subrange(wlen as int, next.len() as int),
                self.id == old(self).id,
                self.definition_name == old(self).definition_name,
            decreases cur.len() - i,
        {
            assert(cv[i as int] == cur[i as int]@);
            let ghost mv = moving(*d, cv, sat, i as int);
            if !waits_exec(d, &cur, i) {
                match step_exec(d, &cur[i], satisfied) {
                    Some(v) => {
                        if !eq_lit(&cur[i], "[*]") {
                            close_entry(&mut self.history, &cur[i], now);
                        }
                        let mut m: usize = 0;
                        while m < v.len()
                            invariant
                                wlen <= next.len(),
                                m <= v.len(),
                                next.deep_view() == dedupe(wv + mv + without_pseudo(v.deep_view().subrange(0, m as int))),
                                hist_ids(self.history@) == old_ids + next.deep_view().subrange(wlen as int, next.len() as int),
                                self.id == old(self).id,
                                self.definition_name == old(self).definition_name,
                            decreases v.len() - m,
                        {
                            let ghost pre = v.deep_view().subrange(0, m as int);
                            assert(v.deep_view().subrange(0, m + 1).drop_last() =~= pre);
                            assert(v.deep_view()[m as int] == v[m as int]@);
                            if !eq_lit(&v[m], "[*]") {
                                let ghost base = wv + mv + without_pseudo(pre);
                                proof {
                                    lemma_dedupe_push(base, v[m as int]@);
                                    assert(wv + mv + without_pseudo(v.deep_view().subrange(0, m + 1)) =~= base.push(v[m as int]@));
                                }
                                let before_len = next.len();
                                let ghost before = next.deep_view();
                                push_unique(&mut next, &v[m]);
                                if next.len() > before_len {
                                    assert(next.deep_view() == before.push(v[m as int]@));
                                    push_entry(&mut self.history, &v[m], now);
                                    assert(next.deep_view().subrange(wlen as int, next.len() as int) =~= before.subrange(wlen as int, before.len() as int).push(v[m as int]@));
                                }
                            } else {
                                assert(wv + mv + without_pseudo(v.deep_view().subrange(0, m + 1)) =~= wv + mv + without_pseudo(pre));
                            }
                            m = m + 1;
                        }
                        assert(v.deep_view().subrange(0, v.len() as int) =~= v.deep_view());
                        assert(wv + moving(*d, cv, sat, i + 1) =~= wv + mv + without_pseudo(v.deep_view()));
                    },
                    None => {
                        assert(wv + moving(*d, cv, sat, i + 1) =~= wv + mv);
                    },
                }
            } else {
                assert(wv + moving(*d, cv, sat, i + 1) =~= wv + mv);
            }
            i = i + 1;
        }
        self.status = if next.len() == 0 { RunStatus::Completed } else { RunStatus::Running };
        self.current_states = next;
        self.failure = None;
        Ok(())
    }

    /// `Running` becomes `Suspended`; anything else is refused.
    pub fn suspend(&mut self) -> (r: Result<(), RunError>)
        ensures
            old(self).status == RunStatus::Running ==> r is Ok && final(self).status
                == RunStatus::Suspended,
            old(self).status != RunStatus::Running ==> r == Err::<(), RunError>(
                RunError::InvalidStateTransition { status: old(self).status },
            ) && *final(self) == *old(self),
            final(self).current_states == old(self).current_states,
            final(self).history == old(self).history,
            final(self).id == old(self).id,
    {
        if self.status != RunStatus::Running {
            return Err(RunError::InvalidStateTransition { status: self.status });
        }
        self.status = RunStatus::Suspended;
        Ok(())
    }

    /// `Suspended` becomes `Running`; anything else is refused.
    pub fn resume(&mut self) -> (r: Result<(), RunError>)
        ensures
            old(self).status == RunStatus::Suspended ==> r is Ok && final(self).status
                == RunStatus::Running,
            old(self).status != RunStatus::Suspended ==> r == Err::<(), RunError>(
                RunError::InvalidStateTransition { status: old(self).status },
            ) && *final(self) == *old(self),
            final(self).current_states == old(self).current_states,
            final(self).history == old(self).history,
            final(self).id == old(self).id,
    {
        if self.status != RunStatus::Suspended {
            return Err(RunError::InvalidStateTransition { status: self.status });
        }
        self.status = RunStatus::Running;
        Ok(())
    }

    /// A running or suspended run becomes `Cancelled`; cancelling a cancelled
    /// run does nothing; a completed or failed run refuses.
    pub fn cancel(&mut self) -> (r: Result<(), RunError>)
        ensures
            !is_final(old(self).status) ==> r is Ok && final(self).status == RunStatus::Cancelled,
            old(self).status == RunStatus::Cancelled ==> r is Ok && final(self).status
                == RunStatus::Cancelled,
            (old(self).status == RunStatus::Completed || old(self).status == RunStatus::Failed)
                ==> r == Err::<(), RunError>(
                RunError::InvalidStateTransition { status: old(self).status },
            ) && *final(self) == *old(self),
            final(self).current_states == old(self).current_states,
            final(self).history == old(self).history,
            final(self).id == old(self).id,
    {
        if self.status == RunStatus::Completed || self.status == RunStatus::Failed {
            return Err(RunError::InvalidStateTransition { status: self.status });
        }
        self.status = RunStatus::Cancelled;
        Ok(())
    }

    /// Records that an action of `state` failed: a running run becomes
    /// `Failed` with that reason; anything else is refused.
    pub fn fail_action(&mut self, state: String, message: String) -> (r: Result<(), RunError>)
        ensures
            old(self).status == RunStatus::Running ==> r is Ok && final(self).status
                == RunStatus::Failed && match final(self).failure {
                Some(FailureReason::ActionFailed { state: s, message: m }) => s == state && m
                    == message,
                _ => false,
            },
            old(self).status != RunStatus::Running ==> r == Err::<(), RunError>(
                RunError::InvalidStateTransition { status: old(self).status },
            ) && *final(self) == *old(self),
            final(self).current_states == old(self).current_states,
            final(self).history == old(self).history,
            final(self).id == old(self).id,
    {
        if self.status != RunStatus::Running {
            return Err(RunError::InvalidStateTransition { status: self.status });
        }
        self.status = RunStatus::Failed;
        self.failure = Some(FailureReason::ActionFailed { state, message });
        Ok(())
    }
}

/// The definition has a finding of error severity.
pub open spec fn blocked(d: WorkflowDefinition) -> bool {
    exists|i: int| 0 <= i < findings_of(d).len() && severity_of(#[trigger] findings_of(d)[i]) == Severity::Error
}

/// Starts a run of `d`: refused when validation reports an error; otherwise
/// the run leaves the initial pseudostate at once, as one `advance`.
pub fn start(id: u64, d: &WorkflowDefinition, satisfied: &Vec<String>, now: u64) -> (r: Result<WorkflowRun, RunError>)
    ensures
        blocked(*d) ==> r == Err::<WorkflowRun, RunError>(RunError::InvalidDefinition),
        !blocked(*d) ==> r is Ok && advanced_from(
            *d,
            satisfied.deep_view(),
            id,
            d.name@,
            seq![pseudo()],
            seq![],
            r->Ok_0,
        ),
{
    let v = validate(d);
    if v.has_errors() {
        proof {
            let i = choose|i: int| 0 <= i < v.findings.len() && severity_of(#[trigger] v.findings[i]@) == Severity::Error;
            assert(findings_of(*d)[i] == v.findings[i]@);
        }
        return Err(RunError::InvalidDefinition);
    }
    proof {
        if blocked(*d) {
            let i = choose|i: int| 0 <= i < findings_of(*d).len() && severity_of(#[trigger] findings_of(*d)[i]) == Severity::Error;
            assert(findings_of(*d)[i] == v.findings[i]@);
        }
    }
    let mut run = WorkflowRun::new(id, d);
    assert(hist_ids(run.history@) =~= seq![]);
    let _ = run.advance(d, satisfied, now);
    Ok(run)
}

/// A lifecycle operation on one run.
pub enum RunOp {
    Advance,
    Suspend,
    Resume,
    Cancel,
}

/// Runs by id; ids are handed out in increasing order.
pub struct WorkflowExecutor {
    pub runs: Vec<WorkflowRun>,
    pub next_id: u64,
}

impl WorkflowExecutor {
    /// Every run has an id below `next_id`, and no two runs share one.
    pub open spec fn wf(&self) -> bool {
        &&& forall|i: int| 0 <= i < self.runs.len() ==> (#[trigger] self.runs[i]).id < self.next_id
        &&& forall|i: int, j: int| 0 <= i < j < self.runs.len() ==> self.runs[i].id != self.runs[j].id
    }

    pub open spec fn has_run(&self, id: u64) -> bool {
        exists|i: int| 0 <= i < self.runs.len() && (#[trigger] self.runs[i]).id == id
    }

    pub fn new() -> (e: WorkflowExecutor)
        ensures
            e.wf(),
            e.runs.len() == 0,
    {
        WorkflowExecutor { runs: Vec::new(), next_id: 0 }
    }

    fn index_of(&self, id: u64) -> (r: Option<usize>)
        ensures
            match r {
                Some(i) => i < self.runs.len() && self.runs[i as int].id == id,
                None => !self.has_run(id),
            },
    {
        let mut i: usize = 0;
        while i < self.runs.len()
            invariant
                i <= self.runs.len(),
                forall|k: int| 0 <= k < i ==> (#[trigger] self.runs[k]).id != id,
            decreases self.runs.len() - i,
        {
            if self.runs[i].id == id {
                return Some(i);
            }
            i = i + 1;
        }
        None
    }

    /// The run with id `id`.
    pub fn get_run(&self, id: u64) -> (r: Option<&WorkflowRun>)
        ensures
            match r {
                Some(run) => run.id == id && exists|i: int| 0 <= i < self.runs.len() && self.runs[i] == *run,
                None => !self.has_run(id),
            },
    {
        match self.index_of(id) {
            Some(i) => Some(&self.runs[i]),
            None => None,
        }
    }

    /// Starts a run of the workflow stored under `name`, as `start` does, and
    /// keeps it under a fresh id.
    pub fn start_run(&mut self, storage: &MemoryWorkflowStorage, name: &str, satisfied: &Vec<String>, now: u64) -> (r: Result<u64, RunError>)
        requires
            old(self).wf(),
        ensures
            final(self).wf(),
            !storage.view().contains_key(name@) ==> r == Err::<u64, RunError>(RunError::UnknownWorkflow),
            storage.view().contains_key(name@) && blocked(storage.view()[name@]) ==> r == Err::<u64, RunError>(
                RunError::InvalidDefinition,
            ),
            storage.view().contains_key(name@) && old(self).next_id == u64::MAX ==> r is Err,
            r is Err ==> final(self).runs@ == old(self).runs@,
            storage.view().contains_key(name@) && !blocked(storage.view()[name@]) && old(self).next_id
                < u64::MAX ==> ({
                let d = storage.view()[name@];
                &&& r == Ok::<u64, RunError>(old(self).next_id)
                &&& final(self).runs.len() == old(self).runs.len() + 1
                &&& final(self).runs@.drop_last() == old(self).runs@
                &&& advanced_from(
                    d,
                    satisfied.deep_view(),
                    old(self).next_id,
                    d.name@,
                    seq![pseudo()],
                    seq![],
                    final(self).runs@.last(),
                )
            }),
    {
        let d = match storage.get(name) {
            Some(d) => d,
            None => return Err(RunError::UnknownWorkflow),
        };
        if self.next_id == u64::MAX {
            if validate(d).has_errors() {
                return Err(RunError::InvalidDefinition);
            }
            return Err(RunError::IdsExhausted);
        }
        let id = self.next_id;
        let run = match start(id, d, satisfied, now) {
            Ok(run) => run,
            Err(e) => return Err(e),
        };
        let ghost before = self.runs@;
        self.runs.push(run);
        self.next_id = id + 1;
        assert(self.runs@.drop_last() =~= before);
        Ok(id)
    }

    /// Applies `op` to the run with id `id`; the other runs stay as they are.
    pub fn apply(&mut self, id: u64, op: RunOp, d: &WorkflowDefinition, satisfied: &Vec<String>, now: u64) -> (r: Result<(), RunError>)
        requires
            old(self).wf(),
        ensures
            final(self).wf(),
            final(self).next_id == old(self).next_id,
            !old(self).has_run(id) ==> r == Err::<(), RunError>(RunError::UnknownRun) && final(self).runs@ == old(self).runs@,
            r is Err ==> final(self).runs@ == old(self).runs@,
            old(self).has_run(id) ==> exists|i: int|
                0 <= i < old(self).runs.len() && old(self).runs[i].id == id && final(self).runs@ == old(self).runs@.update(i, final(self).runs[i])
                    && final(self).runs[i].id == id && match op {
                    RunOp::Advance => (old(self).runs[i].status == RunStatus::Running ==> r is Ok && advanced(*d, satisfied.deep_view(), old(self).runs[i], final(self).runs[i]))
                        && (old(self).runs[i].status != RunStatus::Running ==> r is Err && final(self).runs[i] == old(self).runs[i]),
                    RunOp::Suspend => (old(self).runs[i].status == RunStatus::Running) == (r is Ok) && final(self).runs[i].status == (if r is Ok { RunStatus::Suspended } else { old(self).runs[i].status }),
                    RunOp::Resume => (old(self).runs[i].status == RunStatus::Suspended) == (r is Ok) && final(self).runs[i].status == (if r is Ok { RunStatus::Running } else { old(self).runs[i].status }),
                    RunOp::Cancel => (old(self).runs[i].status != RunStatus::Completed && old(self).runs[i].status != RunStatus::Failed) == (r is Ok) && final(self).runs[i].status == (if r is Ok { RunStatus::Cancelled } else { old(self).runs[i].status }),
                },
    {
        let i = match self.index_of(id) {
            Some(i) => i,
            None => return Err(RunError::UnknownRun),
        };
        let ghost before = self.runs@;
        let mut run = self.runs.remove(i);
        assert(run == before[i as int]);
        let r = match op {
            RunOp::Advance => run.advance(d, satisfied, now),
            RunOp::Suspend => run.suspend(),
            RunOp::Resume => run.resume(),
            RunOp::Cancel => run.cancel(),
        };
        assert(run.id == id) by {
            assert(before[i as int].id == id);
        }
        let ghost after_run = run;
        self.runs.insert(i, run);
        assert(self.runs@ =~= before.update(i as int, self.runs[i as int]));
        assert(r is Err ==> after_run == before[i as int]);
        assert(r is Err ==> self.runs@ =~= before);
        assert forall|k: int| 0 <= k < self.runs.len() implies (#[trigger] self.runs[k]).id < self.next_id by {
            if k != i {
                assert(self.runs[k] == before[k]);
            }
        }
        assert forall|a: int, b: int| 0 <= a < b < self.runs.len() implies self.runs[a].id != self.runs[b].id by {
            assert(self.runs[a].id == before[a].id);
            assert(self.runs[b].id == before[b].id);
        }
        r
    }
}

} // verus!
