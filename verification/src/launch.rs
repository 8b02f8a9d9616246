//! What the launch action does, given the panes Herdr lists: open a new
//! viewer, focus or close the existing one, or switch to its tab.
use crate::host::safe_id;
use crate::search::{first_in, lemma_first_in_bounds, lemma_first_in_hit, lemma_first_in_miss, lemma_first_in_rest};
use crate::text::{chars_of, opt_eq, opt_str_eq, opt_view, str_eq, string_from_range};
use vstd::prelude::*;

verus! {

/// One pane of Herdr's pane list.
#[derive(Debug, Clone)]
pub struct Pane {
    pub pane_id: Option<String>,
    pub label: Option<String>,
    pub focused: bool,
    pub tab_id: Option<String>,
}

#[derive(Debug, Clone)]
pub struct PaneListResult {
    pub panes: Vec<Pane>,
}

/// Herdr's answer to a pane listing.
#[derive(Debug, Clone)]
pub struct PaneList {
    pub result: PaneListResult,
}

pub open spec fn focused_at(panes: Seq<Pane>) -> spec_fn(int) -> bool {
    |i: int| panes[i].focused
}

/// Pane `i` is a viewer (labelled `label`) in tab `tab`.
pub open spec fn viewer_in_tab(panes: Seq<Pane>, label: Seq<char>, tab: Option<Seq<char>>) -> spec_fn(int) -> bool {
    |i: int| opt_view(panes[i].label) == Some(label) && opt_view(panes[i].tab_id) == tab
}

pub open spec fn colon_at(s: Seq<char>) -> spec_fn(int) -> bool {
    |i: int| s[i] == ':'
}

/// The text before the first `:`, if there is one.
pub open spec fn before_colon(o: Option<Seq<char>>) -> Option<Seq<char>> {
    match o {
        Some(s) => match first_in(s.len() as int, colon_at(s)) {
            Some(i) => Some(s.take(i)),
            None => None,
        },
        None => None,
    }
}

/// The workspace a pane belongs to: the part of its tab id before `:`, else
/// that of its pane id; none when that part is empty.
pub open spec fn workspace_of(p: Pane) -> Option<Seq<char>> {
    let w = match before_colon(opt_view(p.tab_id)) {
        Some(w) => Some(w),
        None => before_colon(opt_view(p.pane_id)),
    };
    match w {
        Some(x) => if x.len() > 0 {
            Some(x)
        } else {
            None
        },
        None => None,
    }
}

/// Pane `i` is a viewer in workspace `ws`.
pub open spec fn viewer_in_workspace(panes: Seq<Pane>, label: Seq<char>, ws: Seq<char>) -> spec_fn(int) -> bool {
    |i: int| opt_view(panes[i].label) == Some(label) && workspace_of(panes[i]) == Some(ws)
}

/// For the viewer pane `v`: close it when it is the focused pane, else focus
/// it; open a new one when its id is missing or not safe to pass on.
pub open spec fn close_or_focus(v: Pane, focused: Pane) -> Seq<char> {
    match opt_view(v.pane_id) {
        Some(id) => if safe_id(id) {
            if opt_view(focused.pane_id) == Some(id) {
                "CLOSE "@ + id
            } else {
                "FOCUS "@ + id
            }
        } else {
            "OPEN"@
        },
        None => "OPEN"@,
    }
}

/// The answer for the split-pane action: act on the viewer in the focused
/// pane's tab if there is one, else open a new viewer.
pub open spec fn decision(list: Option<PaneList>, label: Seq<char>) -> Seq<char> {
    match list {
        None => "OPEN"@,
        Some(l) => {
            let ps = l.result.panes@;
            match first_in(ps.len() as int, focused_at(ps)) {
                None => "OPEN"@,
                Some(fi) => match first_in(ps.len() as int, viewer_in_tab(ps, label, opt_view(ps[fi].tab_id))) {
                    None => "OPEN"@,
                    Some(vi) => close_or_focus(ps[vi], ps[fi]),
                },
            }
        },
    }
}

/// The answer for the tab action: act on the viewer in the focused pane's
/// tab if there is one; else switch to a tab of the same workspace that holds
/// a viewer; else open a new viewer.
pub open spec fn decision_tab(list: Option<PaneList>, label: Seq<char>) -> Seq<char> {
    match list {
        None => "OPEN"@,
        Some(l) => {
            let ps = l.result.panes@;
            match first_in(ps.len() as int, focused_at(ps)) {
                None => "OPEN"@,
                Some(fi) => match first_in(ps.len() as int, viewer_in_tab(ps, label, opt_view(ps[fi].tab_id))) {
                    Some(hi) => close_or_focus(ps[hi], ps[fi]),
                    None => match workspace_of(ps[fi]) {
                        None => "OPEN"@,
                        Some(ws) => match first_in(ps.len() as int, viewer_in_workspace(ps, label, ws)) {
                            None => "OPEN"@,
                            Some(ei) => match opt_view(ps[ei].tab_id) {
                                Some(t) => if safe_id(t) {
                                    "SWITCHTAB "@ + t
                                } else {
                                    "OPEN"@
                                },
                                None => "OPEN"@,
                            },
                        },
                    },
                },
            }
        },
    }
}

fn first_focused(panes: &Vec<Pane>) -> (res: Option<usize>)
    ensures
        match res {
            Some(i) => first_in(panes@.len() as int, focused_at(panes@)) == Some(i as int),
            None => first_in(panes@.len() as int, focused_at(panes@)) is None,
        },
{
    let mut i: usize = 0;
    while i < panes.len()
        invariant
            i <= panes@.len(),
            first_in(i as int, focused_at(panes@)) is None,
        decreases panes@.len() - i,
    {
        if panes[i].focused {
            proof {
                lemma_first_in_hit(i as int, focused_at(panes@));
                lemma_first_in_rest(i + 1, panes@.len() as int, focused_at(panes@));
            }
            return Some(i);
        }
        proof { lemma_first_in_miss(i as int, focused_at(panes@)); }
        i += 1;
    }
    None
}

fn first_viewer_in_tab(panes: &Vec<Pane>, label: &str, tab: &Option<String>) -> (res: Option<usize>)
    ensures
        match res {
            Some(i) => first_in(panes@.len() as int, viewer_in_tab(panes@, label@, opt_view(*tab))) == Some(
                i as int,
            ),
            None => first_in(panes@.len() as int, viewer_in_tab(panes@, label@, opt_view(*tab))) is None,
        },
{
    let ghost p = viewer_in_tab(panes@, label@, opt_view(*tab));
    let mut i: usize = 0;
    while i < panes.len()
        invariant
            p == viewer_in_tab(panes@, label@, opt_view(*tab)),
            i <= panes@.len(),
            first_in(i as int, p) is None,
        decreases panes@.len() - i,
    {
        if opt_str_eq(&panes[i].label, label) && opt_eq(&panes[i].tab_id, tab) {
            proof {
                lemma_first_in_hit(i as int, p);
                lemma_first_in_rest(i + 1, panes@.len() as int, p);
            }
            return Some(i);
        }
        proof { lemma_first_in_miss(i as int, p); }
        i += 1;
    }
    None
}

/// The text before the first `:` of an optional string.
fn before_colon_exec(o: &Option<String>) -> (res: Option<String>)
    ensures
        opt_view(res) == before_colon(opt_view(*o)),
{
    match o {
        None => None,
        Some(s) => {
            let cs = chars_of(s.as_str());
            let mut i: usize = 0;
            while i < cs.len()
                invariant
                    cs@ == s@,
                    opt_view(*o) == Some(s@),
                    i <= cs@.len(),
                    first_in(i as int, colon_at(cs@)) is None,
                decreases cs@.len() - i,
            {
                if cs[i] == ':' {
                    proof {
                        lemma_first_in_hit(i as int, colon_at(cs@));
                        lemma_first_in_rest(i + 1, cs@.len() as int, colon_at(cs@));
                    }
                    let w = string_from_range(&cs, 0, i);
                    assert(cs@.subrange(0, i as int) =~= cs@.take(i as int));
                    return Some(w);
                }
                proof { lemma_first_in_miss(i as int, colon_at(cs@)); }
                i += 1;
            }
            None
        },
    }
}

/// The workspace a pane belongs to (see `workspace_of`).
fn workspace_of_exec(p: &Pane) -> (res: Option<String>)
    ensures
        opt_view(res) == workspace_of(*p),
{
    let w = match before_colon_exec(&p.tab_id) {
        Some(w) => Some(w),
        None => before_colon_exec(&p.pane_id),
    };
    match w {
        Some(x) => if x.as_str().is_empty() {
            None
        } else {
            Some(x)
        },
        None => None,
    }
}

fn first_viewer_in_workspace(panes: &Vec<Pane>, label: &str, ws: &String) -> (res: Option<usize>)
    ensures
        match res {
            Some(i) => first_in(panes@.len() as int, viewer_in_workspace(panes@, label@, ws@)) == Some(i as int),
            None => first_in(panes@.len() as int, viewer_in_workspace(panes@, label@, ws@)) is None,
        },
{
    let ghost p = viewer_in_workspace(panes@, label@, ws@);
    let mut i: usize = 0;
    while i < panes.len()
        invariant
            p == viewer_in_workspace(panes@, label@, ws@),
            i <= panes@.len(),
            first_in(i as int, p) is None,
        decreases panes@.len() - i,
    {
        let hit = if opt_str_eq(&panes[i].label, label) {
            match workspace_of_exec(&panes[i]) {
                Some(w) => str_eq(w.as_str(), ws.as_str()),
                None => false,
            }
        } else {
            false
        };
        if hit {
            proof {
                lemma_first_in_hit(i as int, p);
                lemma_first_in_rest(i + 1, panes@.len() as int, p);
            }
            return Some(i);
        }
        proof { lemma_first_in_miss(i as int, p); }
        i += 1;
    }
    None
}

/// The id is present and safe to pass on (see `crate::host::safe_id`).
fn is_flag_safe(id: &str) -> (res: bool)
    ensures
        res == safe_id(id@),
{
    crate::host::is_safe_id(id)
}

fn verb_and(verb: &str, arg: &str) -> (res: String)
    ensures
        res@ == verb@ + arg@,
{
    let mut s = String::from_str(verb);
    s.append(arg);
    s
}

fn close_or_focus_exec(v: &Pane, focused: &Pane) -> (res: String)
    ensures
        res@ == close_or_focus(*v, *focused),
{
    match &v.pane_id {
        Some(id) => if is_flag_safe(id.as_str()) {
            if opt_str_eq(&focused.pane_id, id.as_str()) {
                verb_and("CLOSE ", id.as_str())
            } else {
                verb_and("FOCUS ", id.as_str())
            }
        } else {
            String::from_str("OPEN")
        },
        None => String::from_str("OPEN"),
    }
}

/// What the split-pane action does, given the listed panes (`None` when the
/// listing could not be read) and the viewer's pane label.
pub fn launch_decision(list: Option<&PaneList>, pane_label: &str) -> (res: String)
    ensures
        res@ == decision(
            match list {
                Some(l) => Some(*l),
                None => None,
            },
            pane_label@,
        ),
{
    let l = match list {
        None => return String::from_str("OPEN"),
        Some(l) => l,
    };
    let panes = &l.result.panes;
    let fi = match first_focused(panes) {
        None => return String::from_str("OPEN"),
        Some(fi) => fi,
    };
    proof { lemma_first_in_bounds(panes@.len() as int, focused_at(panes@)); }
    let focused = &panes[fi];
    match first_viewer_in_tab(panes, pane_label, &focused.tab_id) {
        None => String::from_str("OPEN"),
        Some(vi) => {
            proof {
                lemma_first_in_bounds(
                    panes@.len() as int,
                    viewer_in_tab(panes@, pane_label@, opt_view(focused.tab_id)),
                );
            }
            close_or_focus_exec(&panes[vi], focused)
        },
    }
}

/// What the tab action does, given the listed panes (`None` when the listing
/// could not be read) and the viewer's pane label.
pub fn launch_decision_tab(list: Option<&PaneList>, pane_label: &str) -> (res: String)
    ensures
        res@ == decision_tab(
            match list {
                Some(l) => Some(*l),
                None => None,
            },
            pane_label@,
        ),
{
    let l = match list {
        None => return String::from_str("OPEN"),
        Some(l) => l,
    };
    let panes = &l.result.panes;
    let fi = match first_focused(panes) {
        None => return String::from_str("OPEN"),
        Some(fi) => fi,
    };
    proof { lemma_first_in_bounds(panes@.len() as int, focused_at(panes@)); }
    let focused = &panes[fi];
    if let Some(hi) = first_viewer_in_tab(panes, pane_label, &focused.tab_id) {
        proof {
            lemma_first_in_bounds(panes@.len() as int, viewer_in_tab(panes@, pane_label@, opt_view(focused.tab_id)));
        }
        return close_or_focus_exec(&panes[hi], focused);
    }
    let ws = match workspace_of_exec(focused) {
        None => return String::from_str("OPEN"),
        Some(ws) => ws,
    };
    match first_viewer_in_workspace(panes, pane_label, &ws) {
        None => String::from_str("OPEN"),
        Some(ei) => {
            proof {
                lemma_first_in_bounds(panes@.len() as int, viewer_in_workspace(panes@, pane_label@, ws@));
            }
            match &panes[ei].tab_id {
                Some(t) => if is_flag_safe(t.as_str()) {
                    verb_and("SWITCHTAB ", t.as_str())
                } else {
                    String::from_str("OPEN")
                },
                None => String::from_str("OPEN"),
            }
        },
    }
}

/// An answer the launch script can act on safely: `OPEN`, or a verb followed
/// by an id that cannot be read as a flag.
pub open spec fn safe_answer(a: Seq<char>) -> bool {
    ||| a == "OPEN"@
    ||| exists|x: Seq<char>|
        safe_id(x) && (a == "CLOSE "@ + x || a == "FOCUS "@ + x || a == "SWITCHTAB "@ + x)
}

proof fn lemma_close_or_focus_safe(v: Pane, focused: Pane)
    ensures
        safe_answer(close_or_focus(v, focused)),
{
    match opt_view(v.pane_id) {
        Some(id) => {
            if safe_id(id) {
                assert(safe_id(id) && (close_or_focus(v, focused) == "CLOSE "@ + id || close_or_focus(v, focused)
                    == "FOCUS "@ + id));
            }
        },
        None => {},
    }
}

/// Whatever Herdr lists, both launch actions answer `OPEN` or name a pane or
/// tab by an id that is safe to pass on.
pub proof fn law_launch_answers_are_safe(list: Option<PaneList>, label: Seq<char>)
    ensures
        safe_answer(decision(list, label)),
        safe_answer(decision_tab(list, label)),
{
    match list {
        None => {},
        Some(l) => {
            let ps = l.result.panes@;
            match first_in(ps.len() as int, focused_at(ps)) {
                None => {},
                Some(fi) => {
                    match first_in(ps.len() as int, viewer_in_tab(ps, label, opt_view(ps[fi].tab_id))) {
                        Some(vi) => lemma_close_or_focus_safe(ps[vi], ps[fi]),
                        None => {
                            match workspace_of(ps[fi]) {
                                None => {},
                                Some(ws) => match first_in(ps.len() as int, viewer_in_workspace(ps, label, ws)) {
                                    None => {},
                                    Some(ei) => match opt_view(ps[ei].tab_id) {
                                        Some(t) => {
                                            if safe_id(t) {
                                                assert(safe_id(t) && decision_tab(list, label) == "SWITCHTAB "@ + t);
                                            }
                                        },
                                        None => {},
                                    },
                                },
                            }
                        },
                    }
                },
            }
        },
    }
}

/// Invoking the action while the viewer is the focused pane closes it: when
/// the focused pane is the first viewer of its tab and has a safe id, both
/// actions answer `CLOSE` with that id.
pub proof fn law_focused_viewer_closes(l: PaneList, label: Seq<char>, fi: int, id: Seq<char>)
    requires
        first_in(l.result.panes@.len() as int, focused_at(l.result.panes@)) == Some(fi),
        first_in(
            l.result.panes@.len() as int,
            viewer_in_tab(l.result.panes@, label, opt_view(l.result.panes@[fi].tab_id)),
        ) == Some(fi),
        opt_view(l.result.panes@[fi].pane_id) == Some(id),
        safe_id(id),
    ensures
        decision(Some(l), label) == "CLOSE "@ + id,
        decision_tab(Some(l), label) == "CLOSE "@ + id,
{
}

/// Invoking the action again while the viewer is open elsewhere in the tab
/// focuses it: when the first viewer of the focused pane's tab is another
/// pane with a safe id, both actions answer `FOCUS` with that id.
pub proof fn law_open_viewer_is_focused(l: PaneList, label: Seq<char>, fi: int, vi: int, id: Seq<char>)
    requires
        first_in(l.result.panes@.len() as int, focused_at(l.result.panes@)) == Some(fi),
        first_in(
            l.result.panes@.len() as int,
            viewer_in_tab(l.result.panes@, label, opt_view(l.result.panes@[fi].tab_id)),
        ) == Some(vi),
        opt_view(l.result.panes@[vi].pane_id) == Some(id),
        opt_view(l.result.panes@[fi].pane_id) != Some(id),
        safe_id(id),
    ensures
        decision(Some(l), label) == "FOCUS "@ + id,
        decision_tab(Some(l), label) == "FOCUS "@ + id,
{
}

} // verus!
