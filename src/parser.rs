//! Turns a workflow document (metadata header plus state diagram) into a
//! `WorkflowDefinition`.

use crate::definition::{
    opt_view, pseudo, State, StateKind, StateView, Transition, TransitionView, tviews,
    unguarded_out, WorkflowDefinition,
};
use crate::text::{join_from, join_words, lines, split_lines, split_words, words};
use vstd::prelude::*;

verus! {

/// One line of the diagram body, classified.
#[derive(Debug)]
pub enum Statement {
    /// Blank line, comment (`%%`) or diagram header (`stateDiagram-v2`).
    Skip,
    /// `note ...`: kept for documentation.
    Note { text: String },
    /// `state ID <<fork>>`, `<<join>>` or `<<choice>>`.
    Declare { id: String, kind: StateKind },
    /// `ID : action text`.
    Action { id: String, text: String },
    /// `FROM --> TO`, optionally followed by `: {guard} label words`.
    Arrow { from: String, to: String, guard: Option<String>, label: Option<String> },
    /// Anything else; `token` is the offending word.
    Invalid { token: String },
}

pub ghost enum StatementView {
    Skip,
    Note { text: Seq<char> },
    Declare { id: Seq<char>, kind: StateKind },
    Action { id: Seq<char>, text: Seq<char> },
    Arrow { t: TransitionView },
    Invalid { token: Seq<char> },
}

impl View for Statement {
    type V = StatementView;

    open spec fn view(&self) -> StatementView {
        match self {
            Statement::Skip => StatementView::Skip,
            Statement::Note { text } => StatementView::Note { text: text@ },
            Statement::Declare { id, kind } => StatementView::Declare { id: id@, kind: *kind },
            Statement::Action { id, text } => StatementView::Action { id: id@, text: text@ },
            Statement::Arrow { from, to, guard, label } => StatementView::Arrow {
                t: TransitionView {
                    from: from@,
                    to: to@,
                    guard: opt_view(*guard),
                    label: opt_view(*label),
                },
            },
            Statement::Invalid { token } => StatementView::Invalid { token: token@ },
        }
    }
}

pub open spec fn stmt_views(v: Seq<Statement>) -> Seq<StatementView> {
    v.map_values(|s: Statement| s@)
}

pub open spec fn is_comment(w: Seq<char>) -> bool {
    w.len() >= 2 && w[0] == '%' && w[1] == '%'
}

/// `{expr}`: a word that carries a guard.
pub open spec fn is_braced(w: Seq<char>) -> bool {
    w.len() >= 2 && w[0] == '{' && w.last() == '}'
}

pub open spec fn kind_marker(w: Seq<char>) -> Option<StateKind> {
    if w == "<<fork>>"@ {
        Some(StateKind::Fork)
    } else if w == "<<join>>"@ {
        Some(StateKind::Join)
    } else if w == "<<choice>>"@ {
        Some(StateKind::Choice)
    } else {
        None
    }
}

/// What follows `FROM --> TO`: nothing, or `:` then an optional `{guard}`
/// word and label words.
pub open spec fn arrow_of(ws: Seq<Seq<char>>) -> StatementView {
    let mk = |g: Option<Seq<char>>, l: Option<Seq<char>>|
        StatementView::Arrow { t: TransitionView { from: ws[0], to: ws[2], guard: g, label: l } };
    if ws.len() == 3 || (ws.len() == 4 && ws[3] == ":"@) {
        mk(None, None)
    } else if ws[3] != ":"@ {
        StatementView::Invalid { token: ws[3] }
    } else if is_braced(ws[4]) {
        let g = Some(ws[4].subrange(1, ws[4].len() - 1));
        if ws.len() == 5 {
            mk(g, None)
        } else {
            mk(g, Some(join_words(ws.subrange(5, ws.len() as int))))
        }
    } else {
        mk(None, Some(join_words(ws.subrange(4, ws.len() as int))))
    }
}

/// The meaning of one body line, given its words.
pub open spec fn statement_of(ws: Seq<Seq<char>>) -> StatementView {
    if ws.len() == 0 || is_comment(ws[0]) || ws[0] == "stateDiagram-v2"@ || ws[0]
        == "stateDiagram"@ {
        StatementView::Skip
    } else if ws[0] == "note"@ {
        StatementView::Note { text: join_words(ws) }
    } else if ws.len() == 3 && ws[0] == "state"@ && kind_marker(ws[2]) is Some && ws[1]
        != pseudo() {
        StatementView::Declare { id: ws[1], kind: kind_marker(ws[2])->Some_0 }
    } else if ws.len() >= 3 && ws[1] == "-->"@ {
        arrow_of(ws)
    } else if ws.len() >= 3 && ws[1] == ":"@ && ws[0] != pseudo() {
        StatementView::Action { id: ws[0], text: join_words(ws.subrange(2, ws.len() as int)) }
    } else {
        StatementView::Invalid { token: ws[0] }
    }
}

pub(crate) fn eq_lit(w: &String, lit: &str) -> (r: bool)
    ensures
        r == (w@ == lit@),
{
    let l = String::from_str(lit);
    *w == l
}

pub(crate) fn clone_string(s: &String) -> (r: String)
    ensures
        r@ == s@,
{
    s.clone()
}

fn marker_of(w: &String) -> (r: Option<StateKind>)
    ensures
        r == kind_marker(w@),
{
    if eq_lit(w, "<<fork>>") {
        Some(StateKind::Fork)
    } else if eq_lit(w, "<<join>>") {
        Some(StateKind::Join)
    } else if eq_lit(w, "<<choice>>") {
        Some(StateKind::Choice)
    } else {
        None
    }
}

fn braced(w: &String) -> (r: bool)
    ensures
        r == is_braced(w@),
{
    let n = w.as_str().unicode_len();
    n >= 2 && w.as_str().get_char(0) == '{' && w.as_str().get_char(n - 1) == '}'
}

fn arrow(ws: &Vec<String>) -> (r: Statement)
    requires
        ws.len() >= 3,
    ensures
        r@ == arrow_of(ws.deep_view()),
{
    let ghost v = ws.deep_view();
    let from = clone_string(&ws[0]);
    let to = clone_string(&ws[2]);
    if ws.len() == 3 || (ws.len() == 4 && eq_lit(&ws[3], ":")) {
        Statement::Arrow { from, to, guard: None, label: None }
    } else if !eq_lit(&ws[3], ":") {
        Statement::Invalid { token: clone_string(&ws[3]) }
    } else if braced(&ws[4]) {
        let n = ws[4].as_str().unicode_len();
        let g = String::from_str(ws[4].as_str().substring_char(1, n - 1));
        if ws.len() == 5 {
            Statement::Arrow { from, to, guard: Some(g), label: None }
        } else {
            let l = join_from(ws, 5);
            Statement::Arrow { from, to, guard: Some(g), label: Some(l) }
        }
    } else {
        let l = join_from(ws, 4);
        Statement::Arrow { from, to, guard: None, label: Some(l) }
    }
}

/// Classifies one line of the diagram body.
pub fn classify_line(line: &str) -> (r: Statement)
    ensures
        r@ == statement_of(words(line@)),
{
    let ws = split_words(line);
    let ghost v = ws.deep_view();
    if ws.len() == 0 {
        return Statement::Skip;
    }
    assert(v.subrange(0, v.len() as int) =~= v);
    assert(v[0] == ws[0]@);
    let n0 = ws[0].as_str().unicode_len();
    let comment = n0 >= 2 && ws[0].as_str().get_char(0) == '%' && ws[0].as_str().get_char(1)
        == '%';
    if comment || eq_lit(&ws[0], "stateDiagram-v2") || eq_lit(&ws[0], "stateDiagram") {
        Statement::Skip
    } else if eq_lit(&ws[0], "note") {
        Statement::Note { text: join_from(&ws, 0) }
    } else if ws.len() == 3 && eq_lit(&ws[0], "state") && marker_of(&ws[2]).is_some()
        && !eq_lit(&ws[1], "[*]") {
        let kind = marker_of(&ws[2]).unwrap();
        Statement::Declare { id: clone_string(&ws[1]), kind }
    } else if ws.len() >= 3 && eq_lit(&ws[1], "-->") {
        arrow(&ws)
    } else if ws.len() >= 3 && eq_lit(&ws[1], ":") && !eq_lit(&ws[0], "[*]") {
        Statement::Action { id: clone_string(&ws[0]), text: join_from(&ws, 2) }
    } else {
        Statement::Invalid { token: clone_string(&ws[0]) }
    }
}

/// Why a document could not be parsed.
#[derive(Debug)]
pub enum ParseError {
    /// The header has no `name` entry.
    MissingName,
    /// A line that is not part of the grammar; `line` counts from one.
    Syntax { line: usize, token: String },
    /// A state other than a fork leaves by two or more unguarded transitions;
    /// `line` is that of the second one, `state` the offending word.
    AmbiguousTransition { line: usize, state: String },
}

pub open spec fn is_fence(ws: Seq<Seq<char>>) -> bool {
    ws.len() == 1 && ws[0] == "---"@
}

/// A header word of the form `key:`.
pub open spec fn is_key(w: Seq<char>) -> bool {
    w.len() >= 2 && w.last() == ':'
}

pub open spec fn header_line_ok(ws: Seq<Seq<char>>) -> bool {
    ws.len() == 0 || is_fence(ws) || is_key(ws[0])
}

/// The index of the first line at or after `i` whose words satisfy `fence`
/// (when `fence`) or that is blank (otherwise); `ls.len()` if there is none.
pub open spec fn first_line(ls: Seq<Seq<char>>, i: int, fence: bool) -> int
    decreases ls.len() - i,
{
    if i >= ls.len() || i < 0 {
        ls.len() as int
    } else if (fence && is_fence(words(ls[i]))) || (!fence && words(ls[i]).len() == 0) {
        i
    } else {
        first_line(ls, i + 1, fence)
    }
}

/// Where the header lines start and end, and where the body starts. A header
/// opened by a `---` line ends at the next `---` line; otherwise it ends at
/// the first blank line.
pub open spec fn header_range(ls: Seq<Seq<char>>) -> (int, int, int) {
    if ls.len() >= 1 && is_fence(words(ls[0])) {
        let k = first_line(ls, 1, true);
        (1, k, if k < ls.len() { k + 1 } else { k })
    } else {
        let b = first_line(ls, 0, false);
        (0, b, b)
    }
}

/// The value of the last `key:` entry of the header lines.
pub open spec fn header_value(hl: Seq<Seq<char>>, key: Seq<char>) -> Option<Seq<char>>
    decreases hl.len(),
{
    if hl.len() == 0 {
        None
    } else {
        let ws = words(hl.last());
        if ws.len() >= 1 && is_key(ws[0]) && ws[0].drop_last() == key {
            Some(join_words(ws.subrange(1, ws.len() as int)))
        } else {
            header_value(hl.drop_last(), key)
        }
    }
}

/// The index of the first header line that is not blank, a fence or an entry.
pub open spec fn first_bad_header(hl: Seq<Seq<char>>, i: int) -> int
    decreases hl.len() - i,
{
    if i >= hl.len() || i < 0 {
        hl.len() as int
    } else if !header_line_ok(words(hl[i])) {
        i
    } else {
        first_bad_header(hl, i + 1)
    }
}

pub open spec fn statements(bl: Seq<Seq<char>>) -> Seq<StatementView> {
    bl.map_values(|l: Seq<char>| statement_of(words(l)))
}

pub open spec fn first_invalid(st: Seq<StatementView>, i: int) -> int
    decreases st.len() - i,
{
    if i >= st.len() || i < 0 {
        st.len() as int
    } else if st[i] is Invalid {
        i
    } else {
        first_invalid(st, i + 1)
    }
}

/// The transitions that the statements declare, in order.
pub open spec fn arrows(st: Seq<StatementView>) -> Seq<TransitionView>
    decreases st.len(),
{
    if st.len() == 0 {
        seq![]
    } else {
        match st.last() {
            StatementView::Arrow { t } => arrows(st.drop_last()).push(t),
            _ => arrows(st.drop_last()),
        }
    }
}

/// The kind that the last `state` declaration of `id` gives, `Normal` if none.
pub open spec fn declared_kind(st: Seq<StatementView>, id: Seq<char>) -> StateKind
    decreases st.len(),
{
    if st.len() == 0 {
        StateKind::Normal
    } else {
        match st.last() {
            StatementView::Declare { id: d, kind } => if d == id {
                kind
            } else {
                declared_kind(st.drop_last(), id)
            },
            _ => declared_kind(st.drop_last(), id),
        }
    }
}

/// The actions attached to `id`, in order.
pub open spec fn actions_of(st: Seq<StatementView>, id: Seq<char>) -> Seq<Seq<char>>
    decreases st.len(),
{
    if st.len() == 0 {
        seq![]
    } else {
        match st.last() {
            StatementView::Action { id: a, text } => if a == id {
                actions_of(st.drop_last(), id).push(text)
            } else {
                actions_of(st.drop_last(), id)
            },
            _ => actions_of(st.drop_last(), id),
        }
    }
}

/// Whether a statement names `id` as a state.
pub open spec fn names(s: StatementView, id: Seq<char>) -> bool {
    id != pseudo() && match s {
        StatementView::Declare { id: d, .. } => d == id,
        StatementView::Action { id: a, .. } => a == id,
        StatementView::Arrow { t } => t.from == id || t.to == id,
        _ => false,
    }
}

pub open spec fn mentioned(st: Seq<StatementView>, id: Seq<char>) -> bool {
    exists|i: int| 0 <= i < st.len() && names(#[trigger] st[i], id)
}

/// A state that is no fork and leaves by two or more unguarded transitions.
pub open spec fn ambiguous(st: Seq<StatementView>, id: Seq<char>) -> bool {
    &&& mentioned(st, id)
    &&& declared_kind(st, id) != StateKind::Fork
    &&& unguarded_out(arrows(st), id) >= 2
}

/// The target of the first transition out of the initial pseudostate.
pub open spec fn initial_target(ts: Seq<TransitionView>) -> Seq<char>
    decreases ts.len(),
{
    if ts.len() == 0 {
        seq![]
    } else if ts[0].from == pseudo() {
        ts[0].to
    } else {
        initial_target(ts.subrange(1, ts.len() as int))
    }
}

pub open spec fn default_to(o: Option<Seq<char>>, d: Seq<char>) -> Seq<char> {
    match o {
        Some(v) => v,
        None => d,
    }
}

fn header_bounds(ls: &Vec<String>) -> (r: (usize, usize, usize))
    ensures
        (r.0 as int, r.1 as int, r.2 as int) == header_range(ls.deep_view()),
{
    let ghost v = ls.deep_view();
    let fenced = if ls.len() >= 1 {
        let ws = split_words(ls[0].as_str());
        assert(v[0] == ls[0]@);
        assert(ws.len() == 1 ==> ws.deep_view()[0] == ws[0]@);
        ws.len() == 1 && eq_lit(&ws[0], "---")
    } else {
        false
    };
    assert(fenced == (v.len() >= 1 && is_fence(words(v[0]))));
    let start: usize = if fenced { 1 } else { 0 };
    let mut i: usize = start;
    while i < ls.len()
        invariant
            v == ls.deep_view(),
            v.len() == ls.len(),
            start <= i <= ls.len(),
            first_line(v, start as int, fenced) == first_line(v, i as int, fenced),
        ensures
            first_line(v, start as int, fenced) == i,
            i <= ls.len(),
        decreases ls.len() - i,
    {
        let ws = split_words(ls[i].as_str());
        assert(v[i as int] == ls[i as int]@);
        let hit = if fenced {
            ws.len() == 1 && eq_lit(&ws[0], "---")
        } else {
            ws.len() == 0
        };
        assert(ws.len() == 1 ==> ws.deep_view()[0] == ws[0]@);
        assert(hit == ((fenced && is_fence(words(v[i as int]))) || (!fenced && words(
            v[i as int],
        ).len() == 0)));
        if hit {
            assert(first_line(v, i as int, fenced) == i);
            break;
        }
        i = i + 1;
    }
    assert(first_line(v, start as int, fenced) == i);
    if fenced {
        (1, i, if i < ls.len() { i + 1 } else { i })
    } else {
        (0, i, i)
    }
}

fn header_entry(ws: &Vec<String>) -> (r: Option<(String, String)>)
    requires
        ws.len() >= 1,
        is_key(ws.deep_view()[0]),
    ensures
        r is Some,
        r->Some_0.0@ == ws.deep_view()[0].drop_last(),
        r->Some_0.1@ == join_words(ws.deep_view().subrange(1, ws.len() as int)),
{
    let n = ws[0].as_str().unicode_len();
    let key = String::from_str(ws[0].as_str().substring_char(0, n - 1));
    assert(ws.deep_view()[0] == ws[0]@);
    assert(key@ =~= ws.deep_view()[0].drop_last());
    Some((key, join_from(ws, 1)))
}

/// Reads the header lines `ls[hs..he]` into name, description and version.
fn read_header(ls: &Vec<String>, hs: usize, he: usize) -> (r: Result<
    (Option<String>, Option<String>, Option<String>),
    ParseError,
>)
    requires
        hs <= he <= ls.len(),
    ensures
        ({
            let hl = ls.deep_view().subrange(hs as int, he as int);
            let bad = first_bad_header(hl, 0);
            match r {
                Ok((n, d, v)) => bad == hl.len() && opt_view(n) == header_value(hl, "name"@)
                    && opt_view(d) == header_value(hl, "description"@) && opt_view(v)
                    == header_value(hl, "version"@),
                Err(ParseError::Syntax { line, token }) => bad < hl.len() && line == hs + bad + 1
                    && token@ == words(hl[bad])[0],
                Err(_) => false,
            }
        }),
{
    let ghost all = ls.deep_view();
    let ghost hl = all.subrange(hs as int, he as int);
    let mut name: Option<String> = None;
    let mut desc: Option<String> = None;
    let mut ver: Option<String> = None;
    let mut i: usize = hs;
    while i < he
        invariant
            all == ls.deep_view(),
            hl == all.subrange(hs as int, he as int),
            hs <= i <= he <= ls.len(),
            first_bad_header(hl, 0) == first_bad_header(hl, i - hs),
            opt_view(name) == header_value(hl.subrange(0, i - hs), "name"@),
            opt_view(desc) == header_value(hl.subrange(0, i - hs), "description"@),
            opt_view(ver) == header_value(hl.subrange(0, i - hs), "version"@),
        decreases he - i,
    {
        let ws = split_words(ls[i].as_str());
        let ghost w = ws.deep_view();
        let ghost pre = hl.subrange(0, i - hs);
        let ghost next = hl.subrange(0, i - hs + 1);
        assert(next.drop_last() =~= pre);
        assert(next.last() == ls[i as int]@);
        assert(hl[i - hs] == ls[i as int]@);
        assert(words(next.last()) == w);
        assert(ws.len() >= 1 ==> w[0] == ws[0]@);
        proof {
            reveal_strlit("name");
            reveal_strlit("description");
            reveal_strlit("version");
            reveal_strlit("---");
        }
        assert("name"@.len() == 4 && "description"@.len() == 11 && "version"@.len() == 7);
        let fence = ws.len() == 1 && eq_lit(&ws[0], "---");
        if ws.len() == 0 || fence {
        } else {
            let n0 = ws[0].as_str().unicode_len();
            assert(w[0] == ws[0]@);
            if !(n0 >= 2 && ws[0].as_str().get_char(n0 - 1) == ':') {
                return Err(ParseError::Syntax { line: i + 1, token: clone_string(&ws[0]) });
            }
            let (key, value) = header_entry(&ws).unwrap();
            if eq_lit(&key, "name") {
                name = Some(value);
            } else if eq_lit(&key, "description") {
                desc = Some(value);
            } else if eq_lit(&key, "version") {
                ver = Some(value);
            }
        }
        i = i + 1;
    }
    assert(hl.subrange(0, he - hs) =~= hl);
    Ok((name, desc, ver))
}

/// Classifies the body lines `ls[bs..]`, stopping at the first invalid one.
fn read_body(ls: &Vec<String>, bs: usize) -> (r: Result<Vec<Statement>, ParseError>)
    requires
        bs <= ls.len(),
    ensures
        ({
            let st = statements(ls.deep_view().subrange(bs as int, ls.len() as int));
            let bad = first_invalid(st, 0);
            match r {
                Ok(v) => bad == st.len() && stmt_views(v@) == st,
                Err(ParseError::Syntax { line, token }) => bad < st.len() && line == bs + bad
                    + 1 && st[bad] == (StatementView::Invalid { token: token@ }),
                Err(_) => false,
            }
        }),
{
    let ghost st = statements(ls.deep_view().subrange(bs as int, ls.len() as int));
    let mut out: Vec<Statement> = Vec::new();
    let mut i: usize = bs;
    while i < ls.len()
        invariant
            st == statements(ls.deep_view().subrange(bs as int, ls.len() as int)),
            st.len() == ls.len() - bs,
            bs <= i <= ls.len(),
            first_invalid(st, 0) == first_invalid(st, i - bs),
            out.len() == i - bs,
            stmt_views(out@) == st.subrange(0, i - bs),
        decreases ls.len() - i,
    {
        let s = classify_line(ls[i].as_str());
        assert(st[i - bs] == statement_of(words(ls[i as int]@)));
        if let Statement::Invalid { token } = &s {
            return Err(ParseError::Syntax { line: i + 1, token: clone_string(token) });
        }
        assert(s@ == st[i - bs]);
        let ghost before = out@;
        let ghost sv = s;
        out.push(s);
        assert(out@ == before.push(sv));
        assert forall|k: int| 0 <= k < out@.len() implies stmt_views(out@)[k] == st.subrange(
            0,
            i - bs + 1,
        )[k] by {
            if k < before.len() {
                assert(out@[k] == before[k]);
                assert(stmt_views(before)[k] == st.subrange(0, i - bs)[k]);
            } else {
                assert(out@[k] == sv);
                assert(stmt_views(out@)[k] == out@[k]@);
                assert(st.subrange(0, i - bs + 1)[k] == st[i - bs]);
            }
        }
        assert(stmt_views(out@) =~= st.subrange(0, i - bs + 1));
        i = i + 1;
    }
    assert(st.subrange(0, st.len() as int) =~= st);
    Ok(out)
}

/// Every state that a statement names is among `ids`.
pub open spec fn names_in(s: StatementView, ids: Seq<Seq<char>>) -> bool {
    match s {
        StatementView::Declare { id, .. } => ids.contains(id),
        StatementView::Action { id, .. } => ids.contains(id),
        StatementView::Arrow { t } => (t.from == pseudo() || ids.contains(t.from)) && (t.to
            == pseudo() || ids.contains(t.to)),
        _ => true,
    }
}

proof fn lemma_unmentioned_normal(st: Seq<StatementView>, id: Seq<char>)
    requires
        id != pseudo(),
        !mentioned(st, id),
    ensures
        declared_kind(st, id) == StateKind::Normal,
    decreases st.len(),
{
    if st.len() > 0 {
        let p = st.drop_last();
        assert forall|i: int| 0 <= i < p.len() implies !names(#[trigger] p[i], id) by {
            assert(p[i] == st[i]);
        }
        if let StatementView::Declare { id: d, .. } = st.last() {
            assert(!names(st[st.len() - 1], id));
        }
        lemma_unmentioned_normal(p, id);
    }
}

fn clone_opt(o: &Option<String>) -> (r: Option<String>)
    ensures
        opt_view(r) == opt_view(*o),
{
    match o {
        Some(s) => Some(clone_string(s)),
        None => None,
    }
}

pub(crate) fn find_id(ids: &Vec<String>, id: &String) -> (r: Option<usize>)
    ensures
        match r {
            Some(j) => j < ids.len() && ids[j as int]@ == id@,
            None => !ids.deep_view().contains(id@),
        },
{
    let mut j: usize = 0;
    while j < ids.len()
        invariant
            j <= ids.len(),
            forall|k: int| 0 <= k < j ==> ids[k]@ != id@,
        decreases ids.len() - j,
    {
        if ids[j] == *id {
            return Some(j);
        }
        j = j + 1;
    }
    assert(!ids.deep_view().contains(id@)) by {
        if ids.deep_view().contains(id@) {
            let k = choose|k: int| 0 <= k < ids.deep_view().len() && ids.deep_view()[k] == id@;
            assert(ids[k]@ == id@);
        }
    }
    None
}

/// Adds `id` at the end of `ids` unless it is there already.
fn ensure_id(ids: &mut Vec<String>, id: &String)
    ensures
        old(ids).deep_view().contains(id@) ==> final(ids).deep_view() == old(ids).deep_view(),
        !old(ids).deep_view().contains(id@) ==> final(ids).deep_view() == old(
            ids,
        ).deep_view().push(id@),
{
    match find_id(ids, id) {
        Some(j) => {
            assert(ids.deep_view()[j as int] == id@);
        },
        None => {
            let ghost before = ids.deep_view();
            ids.push(clone_string(id));
            assert(ids.deep_view() =~= before.push(id@));
        },
    }
}

pub open spec fn distinct_ids(ids: Seq<Seq<char>>) -> bool {
    &&& forall|a: int, b: int| 0 <= a < b < ids.len() ==> ids[a] != ids[b]
    &&& forall|j: int| 0 <= j < ids.len() ==> ids[j] != pseudo()
}

/// Declarations and actions never name the pseudostate.
pub open spec fn no_pseudo_names(s: StatementView) -> bool {
    match s {
        StatementView::Declare { id, .. } => id != pseudo(),
        StatementView::Action { id, .. } => id != pseudo(),
        _ => true,
    }
}

proof fn lemma_ensure_id(p: Seq<StatementView>, s: StatementView, ids0: Seq<Seq<char>>, ids1: Seq<Seq<char>>, id: Seq<char>)
    requires
        distinct_ids(ids0),
        forall|j: int| 0 <= j < ids0.len() ==> mentioned(p.push(s), #[trigger] ids0[j]),
        names(s, id),
        ids0.contains(id) ==> ids1 == ids0,
        !ids0.contains(id) ==> ids1 == ids0.push(id),
    ensures
        distinct_ids(ids1),
        forall|j: int| 0 <= j < ids1.len() ==> mentioned(p.push(s), #[trigger] ids1[j]),
        ids1.contains(id),
        forall|x: Seq<char>| ids0.contains(x) ==> #[trigger] ids1.contains(x),
{
    lemma_push_step(p, s);
    if !ids0.contains(id) {
        assert(ids1[ids0.len() as int] == id);
        assert forall|x: Seq<char>| ids0.contains(x) implies #[trigger] ids1.contains(x) by {
            let k = choose|k: int| 0 <= k < ids0.len() && ids0[k] == x;
            assert(ids1[k] == x);
        }
        assert forall|a: int, b: int| 0 <= a < b < ids1.len() implies ids1[a] != ids1[b] by {
            if b == ids0.len() {
                assert(ids0[a] == ids1[a]);
            }
        }
    }
}

/// `ids` are distinct and are exactly the states that `st` names.
pub open spec fn ids_cover(ids: Seq<Seq<char>>, st: Seq<StatementView>) -> bool {
    &&& distinct_ids(ids)
    &&& forall|j: int| 0 <= j < ids.len() ==> mentioned(st, #[trigger] ids[j])
    &&& forall|k: int| 0 <= k < st.len() ==> names_in(#[trigger] st[k], ids)
}

/// The distinct states that the statements name, in order of first mention.
fn collect_ids(stmts: &Vec<Statement>) -> (ids: Vec<String>)
    requires
        forall|k: int| 0 <= k < stmts.len() ==> no_pseudo_names(#[trigger] stmts[k]@),
    ensures
        ids_cover(ids.deep_view(), stmt_views(stmts@)),
{
    let ghost st = stmt_views(stmts@);
    let mut ids: Vec<String> = Vec::new();
    let mut i: usize = 0;
    while i < stmts.len()
        invariant
            st == stmt_views(stmts@),
            forall|k: int| 0 <= k < stmts.len() ==> no_pseudo_names(#[trigger] stmts[k]@),
            i <= stmts.len(),
            distinct_ids(ids.deep_view()),
            forall|j: int|
                0 <= j < ids.len() ==> mentioned(st.subrange(0, i as int), #[trigger] ids.deep_view()[j]),
            forall|k: int| 0 <= k < i ==> names_in(#[trigger] st[k], ids.deep_view()),
        decreases stmts.len() - i,
    {
        let ghost p = st.subrange(0, i as int);
        let ghost s = st[i as int];
        let ghost ids0 = ids.deep_view();
        proof {
            lemma_push_step(p, s);
            assert(st.subrange(0, i + 1) =~= p.push(s));
            assert(stmts[i as int]@ == s);
        }
        match &stmts[i] {
            Statement::Declare { id, .. } => {
                ensure_id(&mut ids, id);
                proof {
                    lemma_ensure_id(p, s, ids0, ids.deep_view(), id@);
                }
            },
            Statement::Action { id, .. } => {
                ensure_id(&mut ids, id);
                proof {
                    lemma_ensure_id(p, s, ids0, ids.deep_view(), id@);
                }
            },
            Statement::Arrow { from, to, .. } => {
                if !eq_lit(from, "[*]") {
                    ensure_id(&mut ids, from);
                    proof {
                        lemma_ensure_id(p, s, ids0, ids.deep_view(), from@);
                    }
                }
                let ghost ids1 = ids.deep_view();
                if !eq_lit(to, "[*]") {
                    ensure_id(&mut ids, to);
                    proof {
                        lemma_ensure_id(p, s, ids1, ids.deep_view(), to@);
                    }
                }
            },
            _ => {},
        }
        assert(forall|x: Seq<char>| ids0.contains(x) ==> #[trigger] ids.deep_view().contains(x));
        assert forall|k: int| 0 <= k < i + 1 implies names_in(#[trigger] st[k], ids.deep_view()) by {
            if k < i {
                assert(names_in(st[k], ids0));
            }
        }
        i = i + 1;
    }
    ids
}

proof fn lemma_push_step(p: Seq<StatementView>, s: StatementView)
    ensures
        p.push(s).drop_last() == p,
        p.push(s).last() == s,
        forall|id: Seq<char>| mentioned(p, id) ==> #[trigger] mentioned(p.push(s), id),
        forall|id: Seq<char>| names(s, id) ==> #[trigger] mentioned(p.push(s), id),
{
    assert(p.push(s).drop_last() =~= p);
    assert forall|id: Seq<char>| mentioned(p, id) implies #[trigger] mentioned(p.push(s), id) by {
        let i = choose|i: int| 0 <= i < p.len() && names(#[trigger] p[i], id);
        assert(p.push(s)[i] == p[i]);
    }
    assert forall|id: Seq<char>| names(s, id) implies #[trigger] mentioned(p.push(s), id) by {
        assert(p.push(s)[p.len() as int] == s);
    }
}

/// The kind that the statements declare for `id`.
fn kind_of(stmts: &Vec<Statement>, id: &String) -> (k: StateKind)
    ensures
        k == declared_kind(stmt_views(stmts@), id@),
{
    let ghost st = stmt_views(stmts@);
    let mut k = StateKind::Normal;
    let mut i: usize = 0;
    while i < stmts.len()
        invariant
            st == stmt_views(stmts@),
            i <= stmts.len(),
            k == declared_kind(st.subrange(0, i as int), id@),
        decreases stmts.len() - i,
    {
        proof {
            lemma_push_step(st.subrange(0, i as int), st[i as int]);
            assert(st.subrange(0, i + 1) =~= st.subrange(0, i as int).push(st[i as int]));
            assert(stmts[i as int]@ == st[i as int]);
        }
        if let Statement::Declare { id: d, kind } = &stmts[i] {
            if *d == *id {
                k = *kind;
            }
        }
        i = i + 1;
    }
    assert(st.subrange(0, stmts.len() as int) =~= st);
    k
}

/// The actions that the statements attach to `id`, in order.
fn actions_for(stmts: &Vec<Statement>, id: &String) -> (a: Vec<String>)
    ensures
        a.deep_view() == actions_of(stmt_views(stmts@), id@),
{
    let ghost st = stmt_views(stmts@);
    let mut a: Vec<String> = Vec::new();
    let mut i: usize = 0;
    while i < stmts.len()
        invariant
            st == stmt_views(stmts@),
            i <= stmts.len(),
            a.deep_view() == actions_of(st.subrange(0, i as int), id@),
        decreases stmts.len() - i,
    {
        proof {
            lemma_push_step(st.subrange(0, i as int), st[i as int]);
            assert(st.subrange(0, i + 1) =~= st.subrange(0, i as int).push(st[i as int]));
            assert(stmts[i as int]@ == st[i as int]);
        }
        if let Statement::Action { id: d, text } = &stmts[i] {
            if *d == *id {
                let ghost before = a.deep_view();
                a.push(clone_string(text));
                assert(a.deep_view() =~= before.push(text@));
            }
        }
        i = i + 1;
    }
    assert(st.subrange(0, stmts.len() as int) =~= st);
    a
}

/// The transitions that the statements declare, in order.
fn collect_arrows(stmts: &Vec<Statement>) -> (ts: Vec<Transition>)
    ensures
        tviews(ts@) == arrows(stmt_views(stmts@)),
{
    let ghost st = stmt_views(stmts@);
    let mut ts: Vec<Transition> = Vec::new();
    let mut i: usize = 0;
    while i < stmts.len()
        invariant
            st == stmt_views(stmts@),
            i <= stmts.len(),
            tviews(ts@) == arrows(st.subrange(0, i as int)),
        decreases stmts.len() - i,
    {
        proof {
            lemma_push_step(st.subrange(0, i as int), st[i as int]);
            assert(st.subrange(0, i + 1) =~= st.subrange(0, i as int).push(st[i as int]));
            assert(stmts[i as int]@ == st[i as int]);
        }
        if let Statement::Arrow { from, to, guard, label } = &stmts[i] {
            let t = Transition {
                from: clone_string(from),
                to: clone_string(to),
                guard: clone_opt(guard),
                label: clone_opt(label),
            };
            let ghost before = ts@;
            ts.push(t);
            assert(tviews(ts@) =~= tviews(before).push(t@));
        }
        i = i + 1;
    }
    assert(st.subrange(0, stmts.len() as int) =~= st);
    ts
}

/// Each transition of `arrows(st)` comes from an arrow statement of `st`.
proof fn lemma_arrow_source(st: Seq<StatementView>, n: int)
    requires
        0 <= n < arrows(st).len(),
    ensures
        exists|k: int|
            0 <= k < st.len() && #[trigger] st[k] == (StatementView::Arrow { t: arrows(st)[n] }),
    decreases st.len(),
{
    let p = st.drop_last();
    match st.last() {
        StatementView::Arrow { t } => {
            if n == arrows(p).len() {
                assert(st[st.len() - 1] == StatementView::Arrow { t: arrows(st)[n] });
            } else {
                lemma_arrow_source(p, n);
                let k = choose|k: int|
                    0 <= k < p.len() && #[trigger] p[k] == (StatementView::Arrow { t: arrows(p)[n] });
                assert(st[k] == p[k]);
            }
        },
        _ => {
            lemma_arrow_source(p, n);
            let k = choose|k: int|
                0 <= k < p.len() && #[trigger] p[k] == (StatementView::Arrow { t: arrows(p)[n] });
            assert(st[k] == p[k]);
        },
    }
}

/// The number of transitions of `ts` that leave `id` without a guard.
pub(crate) fn count_unguarded(ts: &Vec<Transition>, id: &String) -> (c: usize)
    ensures
        c == unguarded_out(tviews(ts@), id@),
{
    let ghost tv = tviews(ts@);
    let mut c: usize = 0;
    let mut k: usize = 0;
    while k < ts.len()
        invariant
            tv == tviews(ts@),
            k <= ts.len(),
            c == unguarded_out(tv.subrange(0, k as int), id@),
            c <= k,
        decreases ts.len() - k,
    {
        assert(tv.subrange(0, k + 1).drop_last() =~= tv.subrange(0, k as int));
        if ts[k].from == *id && ts[k].guard.is_none() {
            c = c + 1;
        }
        k = k + 1;
    }
    assert(tv.subrange(0, ts.len() as int) =~= tv);
    c
}

/// The texts of the notes among the statements, in order.
pub open spec fn notes_of(st: Seq<StatementView>) -> Seq<Seq<char>>
    decreases st.len(),
{
    if st.len() == 0 {
        seq![]
    } else {
        match st.last() {
            StatementView::Note { text } => notes_of(st.drop_last()).push(text),
            _ => notes_of(st.drop_last()),
        }
    }
}

fn collect_notes(stmts: &Vec<Statement>) -> (r: Vec<String>)
    ensures
        r.deep_view() == notes_of(stmt_views(stmts@)),
{
    let ghost st = stmt_views(stmts@);
    let mut out: Vec<String> = Vec::new();
    let mut i: usize = 0;
    while i < stmts.len()
        invariant
            st == stmt_views(stmts@),
            i <= stmts.len(),
            out.deep_view() == notes_of(st.subrange(0, i as int)),
        decreases stmts.len() - i,
    {
        proof {
            lemma_push_step(st.subrange(0, i as int), st[i as int]);
            assert(st.subrange(0, i + 1) =~= st.subrange(0, i as int).push(st[i as int]));
            assert(stmts[i as int]@ == st[i as int]);
        }
        if let Statement::Note { text } = &stmts[i] {
            let ghost before = out.deep_view();
            out.push(clone_string(text));
            assert(out.deep_view() =~= before.push(text@));
        }
        i = i + 1;
    }
    assert(st.subrange(0, stmts.len() as int) =~= st);
    out
}

/// The header lines of a document.
pub open spec fn header_lines(text: Seq<char>) -> Seq<Seq<char>> {
    let ls = lines(text);
    let r = header_range(ls);
    ls.subrange(r.0, r.1)
}

/// The index of the first body line of a document.
pub open spec fn body_start(text: Seq<char>) -> int {
    header_range(lines(text)).2
}

/// The statements of a document's body, one per line.
pub open spec fn body_statements(text: Seq<char>) -> Seq<StatementView> {
    let ls = lines(text);
    statements(ls.subrange(body_start(text), ls.len() as int))
}

pub open spec fn header_ok(text: Seq<char>) -> bool {
    first_bad_header(header_lines(text), 0) == header_lines(text).len()
}

pub open spec fn body_ok(text: Seq<char>) -> bool {
    first_invalid(body_statements(text), 0) == body_statements(text).len()
}

pub open spec fn doc_name(text: Seq<char>) -> Option<Seq<char>> {
    header_value(header_lines(text), "name"@)
}

/// What a successful parse of `text` yields.
pub open spec fn parsed_from(d: WorkflowDefinition, text: Seq<char>) -> bool {
    let st = body_statements(text);
    let hl = header_lines(text);
    &&& d.name@ == doc_name(text)->Some_0
    &&& d.description@ == default_to(header_value(hl, "description"@), seq![])
    &&& d.version@ == default_to(header_value(hl, "version"@), "1"@)
    &&& d.transition_views() == arrows(st)
    &&& d.initial_state@ == initial_target(arrows(st))
    &&& d.notes.deep_view() == notes_of(st)
    &&& d.refs_declared()
    &&& forall|id: Seq<char>| #[trigger] d.has_state(id) <==> mentioned(st, id)
    &&& forall|j: int|
        0 <= j < d.states.len() ==> (#[trigger] d.states[j])@ == (StateView {
            id: d.states[j].id@,
            kind: declared_kind(st, d.states[j].id@),
            actions: actions_of(st, d.states[j].id@),
        })
}

fn first_initial_target(ts: &Vec<Transition>) -> (r: String)
    ensures
        r@ == initial_target(tviews(ts@)),
{
    let ghost tv = tviews(ts@);
    let mut k: usize = 0;
    assert(tv.subrange(0, tv.len() as int) =~= tv);
    while k < ts.len()
        invariant
            tv == tviews(ts@),
            k <= ts.len(),
            initial_target(tv) == initial_target(tv.subrange(k as int, tv.len() as int)),
        decreases ts.len() - k,
    {
        let ghost rest = tv.subrange(k as int, tv.len() as int);
        assert(rest.subrange(1, rest.len() as int) =~= tv.subrange(k + 1, tv.len() as int));
        assert(rest[0] == ts[k as int]@);
        if eq_lit(&ts[k].from, "[*]") {
            return clone_string(&ts[k].to);
        }
        k = k + 1;
    }
    String::new()
}

fn string_or(o: Option<String>, d: &str) -> (r: String)
    ensures
        r@ == default_to(opt_view(o), d@),
{
    match o {
        Some(s) => s,
        None => String::from_str(d),
    }
}

/// `text` parses, to `d`.
pub open spec fn parses_to(text: Seq<char>, d: WorkflowDefinition) -> bool {
    &&& header_ok(text)
    &&& doc_name(text) is Some
    &&& body_ok(text)
    &&& forall|id: Seq<char>| !#[trigger] ambiguous(body_statements(text), id)
    &&& parsed_from(d, text)
}

/// Parsing `text` fails, with error `e`.
pub open spec fn fails_with(text: Seq<char>, e: ParseError) -> bool {
    let hl = header_lines(text);
    let st = body_statements(text);
    let hbad = first_bad_header(hl, 0);
    let bbad = first_invalid(st, 0);
    match e {
        ParseError::MissingName => header_ok(text) && doc_name(text) is None,
        ParseError::Syntax { line, token } => (!header_ok(text) && line == header_range(
            lines(text),
        ).0 + hbad + 1 && token@ == words(hl[hbad])[0]) || (header_ok(text) && doc_name(text) is Some
            && !body_ok(text) && line == body_start(text) + bbad + 1 && st[bbad]
            == (StatementView::Invalid { token: token@ })),
        ParseError::AmbiguousTransition { line, state } => header_ok(text) && doc_name(text) is Some
            && body_ok(text) && ambiguous(st, state@) && line == body_start(text) + second_unguarded(
            st,
            state@,
            0,
            0,
        ) + 1,
    }
}

/// An arrow statement out of `id` without a guard.
pub open spec fn unguarded_from(s: StatementView, id: Seq<char>) -> bool {
    match s {
        StatementView::Arrow { t } => t.from == id && t.guard is None,
        _ => false,
    }
}

/// The number of unguarded arrow statements out of `id`.
pub open spec fn unguarded_stmts(st: Seq<StatementView>, id: Seq<char>) -> nat
    decreases st.len(),
{
    if st.len() == 0 {
        0
    } else {
        unguarded_stmts(st.drop_last(), id) + if unguarded_from(st.last(), id) {
            1nat
        } else {
            0nat
        }
    }
}

/// The index of the statement at or after `i` that makes the count of
/// unguarded arrows out of `id` reach two, `seen` of them being before `i`.
pub open spec fn second_unguarded(st: Seq<StatementView>, id: Seq<char>, i: int, seen: nat) -> int
    decreases st.len() - i,
{
    if i >= st.len() || i < 0 {
        st.len() as int
    } else if unguarded_from(st[i], id) {
        if seen >= 1 {
            i
        } else {
            second_unguarded(st, id, i + 1, seen + 1)
        }
    } else {
        second_unguarded(st, id, i + 1, seen)
    }
}

proof fn lemma_unguarded_stmts(st: Seq<StatementView>, id: Seq<char>)
    ensures
        unguarded_out(arrows(st), id) == unguarded_stmts(st, id),
    decreases st.len(),
{
    if st.len() > 0 {
        lemma_unguarded_stmts(st.drop_last(), id);
        match st.last() {
            StatementView::Arrow { t } => {
                assert(arrows(st).drop_last() =~= arrows(st.drop_last()));
            },
            _ => {},
        }
    }
}

/// The index of the statement holding the second unguarded arrow out of `id`.
fn second_unguarded_index(stmts: &Vec<Statement>, id: &String) -> (k: usize)
    requires
        unguarded_stmts(stmt_views(stmts@), id@) >= 2,
    ensures
        k as int == second_unguarded(stmt_views(stmts@), id@, 0, 0),
        k < stmts.len(),
{
    let ghost st = stmt_views(stmts@);
    let mut seen: usize = 0;
    let mut i: usize = 0;
    while i < stmts.len()
        invariant
            st == stmt_views(stmts@),
            unguarded_stmts(st, id@) >= 2,
            i <= stmts.len(),
            seen <= 1,
            seen as nat == unguarded_stmts(st.subrange(0, i as int), id@),
            second_unguarded(st, id@, 0, 0) == second_unguarded(st, id@, i as int, seen as nat),
        decreases stmts.len() - i,
    {
        assert(st.subrange(0, i + 1).drop_last() =~= st.subrange(0, i as int));
        assert(stmts[i as int]@ == st[i as int]);
        let hit = match &stmts[i] {
            Statement::Arrow { from, guard, .. } => *from == *id && guard.is_none(),
            _ => false,
        };
        if hit {
            if seen >= 1 {
                return i;
            }
            seen = seen + 1;
        }
        i = i + 1;
    }
    assert(st.subrange(0, stmts.len() as int) =~= st);
    i
}

/// Parses a workflow document: a header of `key: value` lines (optionally
/// between `---` fences; otherwise up to the first blank line), then a state
/// diagram, one statement per line.
pub fn parse_workflow(text: &str) -> (r: Result<WorkflowDefinition, ParseError>)
    ensures
        match r {
            Ok(d) => parses_to(text@, d),
            Err(e) => fails_with(text@, e),
        },
{
    let ls = split_lines(text);
    let (hs, he, bs) = header_bounds(&ls);
    proof {
        let v = ls.deep_view();
        lemma_first_line_bounds(v, 1, true);
        lemma_first_line_bounds(v, 0, false);
    }
    let (name, desc, ver) = match read_header(&ls, hs, he) {
        Ok(h) => h,
        Err(e) => return Err(e),
    };
    let name = match name {
        Some(n) => n,
        None => return Err(ParseError::MissingName),
    };
    let stmts = match read_body(&ls, bs) {
        Ok(v) => v,
        Err(e) => return Err(e),
    };
    let ghost st = stmt_views(stmts@);
    assert(st == body_statements(text@));
    assert(bs + stmts.len() == ls.len()) by {
        assert(stmt_views(stmts@).len() == stmts@.len());
    }
    assert(header_lines(text@) == ls.deep_view().subrange(hs as int, he as int));
    assert(header_ok(text@));
    assert(body_ok(text@));
    assert(doc_name(text@) == Some(name@));
    proof {
        assert forall|k: int| 0 <= k < stmts.len() implies no_pseudo_names(#[trigger] stmts[k]@) by {
            assert(stmts[k]@ == st[k]);
        }
    }
    let ids = collect_ids(&stmts);
    let transitions = collect_arrows(&stmts);
    let mut states: Vec<State> = Vec::new();
    let mut j: usize = 0;
    while j < ids.len()
        invariant
            st == stmt_views(stmts@),
            st == body_statements(text@),
            header_ok(text@),
            body_ok(text@),
            doc_name(text@) == Some(name@),
            opt_view(desc) == header_value(header_lines(text@), "description"@),
            opt_view(ver) == header_value(header_lines(text@), "version"@),
            ids_cover(ids.deep_view(), st),
            tviews(transitions@) == arrows(st),
            j <= ids.len(),
            states.len() == j,
            forall|q: int|
                0 <= q < j ==> (#[trigger] states[q])@ == (StateView {
                    id: ids[q]@,
                    kind: declared_kind(st, ids[q]@),
                    actions: actions_of(st, ids[q]@),
                }),
        decreases ids.len() - j,
    {
        let s = State {
            id: clone_string(&ids[j]),
            kind: kind_of(&stmts, &ids[j]),
            actions: actions_for(&stmts, &ids[j]),
        };
        states.push(s);
        j = j + 1;
    }
    let mut j: usize = 0;
    while j < ids.len()
        invariant
            st == stmt_views(stmts@),
            st == body_statements(text@),
            header_ok(text@),
            body_ok(text@),
            doc_name(text@) == Some(name@),
            opt_view(desc) == header_value(header_lines(text@), "description"@),
            opt_view(ver) == header_value(header_lines(text@), "version"@),
            ids_cover(ids.deep_view(), st),
            j <= ids.len(),
            states.len() == ids.len(),
            tviews(transitions@) == arrows(st),
            forall|q: int|
                0 <= q < ids.len() ==> (#[trigger] states[q])@ == (StateView {
                    id: ids[q]@,
                    kind: declared_kind(st, ids[q]@),
                    actions: actions_of(st, ids[q]@),
                }),
            forall|q: int| 0 <= q < j ==> !ambiguous(st, #[trigger] ids.deep_view()[q]),
            bs + stmts.len() == ls.len(),
            bs as int == body_start(text@),
        decreases ids.len() - j,
    {
        assert(ids.deep_view()[j as int] == ids[j as int]@);
        if states[j].kind != StateKind::Fork && count_unguarded(&transitions, &ids[j]) >= 2 {
            assert(mentioned(st, ids.deep_view()[j as int]));
            proof {
                lemma_unguarded_stmts(st, ids[j as int]@);
            }
            let k = second_unguarded_index(&stmts, &ids[j]);
            return Err(ParseError::AmbiguousTransition { line: bs + k + 1, state: clone_string(&ids[j]) });
        }
        j = j + 1;
    }
    let initial_state = first_initial_target(&transitions);
    let notes = collect_notes(&stmts);
    let d = WorkflowDefinition {
        name,
        description: string_or(desc, ""),
        version: string_or(ver, "1"),
        initial_state,
        states,
        transitions,
        notes,
    };
    proof {
        let ids_v = ids.deep_view();
        assert forall|q: int| 0 <= q < d.states.len() implies d.states[q].id@ == ids_v[q] by {
            assert(states[q]@.id == ids[q]@);
        }
        assert forall|x: Seq<char>| #[trigger] d.has_state(x) <==> ids_v.contains(x) by {
            if d.has_state(x) {
                let q = choose|q: int| 0 <= q < d.states.len() && #[trigger] d.states[q].id@ == x;
                assert(ids_v[q] == x);
            }
            if ids_v.contains(x) {
                let q = choose|q: int| 0 <= q < ids_v.len() && ids_v[q] == x;
                assert(d.states[q].id@ == x);
            }
        }
        assert forall|x: Seq<char>| #[trigger] d.has_state(x) <==> mentioned(st, x) by {
            if mentioned(st, x) {
                let k = choose|k: int| 0 <= k < st.len() && names(#[trigger] st[k], x);
                assert(names_in(st[k], ids_v));
            }
            if d.has_state(x) {
                let q = choose|q: int| 0 <= q < ids_v.len() && ids_v[q] == x;
                assert(mentioned(st, ids_v[q]));
            }
        }
        assert forall|k: int| 0 <= k < d.transitions.len() implies {
            let t = #[trigger] d.transitions[k];
            &&& (t.from@ == pseudo() || d.has_state(t.from@))
            &&& (t.to@ == pseudo() || d.has_state(t.to@))
        } by {
            assert(tviews(transitions@)[k] == transitions[k]@);
            lemma_arrow_source(st, k);
            let i = choose|i: int|
                0 <= i < st.len() && #[trigger] st[i] == (StatementView::Arrow {
                    t: arrows(st)[k],
                });
            assert(names_in(st[i], ids_v));
        }
        assert forall|id: Seq<char>| !#[trigger] ambiguous(st, id) by {
            if ambiguous(st, id) {
                assert(d.has_state(id));
                let q = choose|q: int| 0 <= q < ids_v.len() && ids_v[q] == id;
                assert(!ambiguous(st, ids_v[q]));
            }
        }
        assert forall|a: int, b: int| 0 <= a < b < d.states.len() implies d.states[a].id@
            != d.states[b].id@ by {
            assert(d.states[a].id@ == ids_v[a]);
            assert(d.states[b].id@ == ids_v[b]);
        }
        assert forall|q: int| 0 <= q < d.states.len() implies d.states[q].id@ != pseudo() by {
            assert(d.states[q].id@ == ids_v[q]);
        }
        assert(d.refs_declared());
        assert(d.name@ == doc_name(text@)->Some_0);
        assert(d.transition_views() == arrows(st));
        assert(d.initial_state@ == initial_target(arrows(st)));
        reveal_strlit("");
        assert(d.description@ == default_to(header_value(header_lines(text@), "description"@), seq![]));
        assert(d.version@ == default_to(header_value(header_lines(text@), "version"@), "1"@));
        assert(parsed_from(d, text@));
    }
    Ok(d)
}

proof fn lemma_first_line_bounds(ls: Seq<Seq<char>>, i: int, fence: bool)
    requires
        0 <= i,
    ensures
        first_line(ls, i, fence) <= ls.len(),
        i <= ls.len() ==> i <= first_line(ls, i, fence),
    decreases ls.len() - i,
{
    if i < ls.len() {
        lemma_first_line_bounds(ls, i + 1, fence);
    }
}

} // verus!
