//! What the Herdr host tells the viewer about where it runs.
use crate::context::LaunchContext;
use crate::text::{chars_of, opt_view};
use vstd::prelude::*;

verus! {

/// The launch context Herdr passes, as plain values.
#[derive(Debug, Clone)]
pub struct RawContext {
    pub focused_pane_cwd: Option<String>,
    pub workspace_cwd: Option<String>,
    pub cwd: Option<String>,
}

pub open spec fn nonblank(o: Option<Seq<char>>) -> bool {
    o is Some && o->0.len() > 0
}

/// The working directory to use: the focused pane's, else the workspace's,
/// else the context's own, skipping blank ones; else `fallback_cwd`.
pub open spec fn context_cwd(raw: Option<RawContext>, fallback_cwd: Seq<char>) -> Seq<char> {
    match raw {
        None => fallback_cwd,
        Some(r) => if nonblank(opt_view(r.focused_pane_cwd)) {
            opt_view(r.focused_pane_cwd)->0
        } else if nonblank(opt_view(r.workspace_cwd)) {
            opt_view(r.workspace_cwd)->0
        } else if nonblank(opt_view(r.cwd)) {
            opt_view(r.cwd)->0
        } else {
            fallback_cwd
        },
    }
}

fn take_nonblank(o: Option<String>) -> (res: Option<String>)
    ensures
        match res {
            Some(s) => nonblank(opt_view(o)) && s@ == opt_view(o)->0,
            None => !nonblank(opt_view(o)),
        },
{
    match o {
        Some(s) => if s.as_str().is_empty() {
            None
        } else {
            Some(s)
        },
        None => None,
    }
}

/// The launch context for a parsed host context (`None` when there was none
/// or it did not parse).
pub fn context_from_raw(raw: Option<RawContext>, fallback_cwd: String) -> (ctx: LaunchContext)
    ensures
        ctx.cwd@ == context_cwd(raw, fallback_cwd@),
{
    match raw {
        None => LaunchContext { cwd: fallback_cwd },
        Some(r) => {
            let RawContext { focused_pane_cwd, workspace_cwd, cwd } = r;
            if let Some(c) = take_nonblank(focused_pane_cwd) {
                LaunchContext { cwd: c }
            } else if let Some(c) = take_nonblank(workspace_cwd) {
                LaunchContext { cwd: c }
            } else if let Some(c) = take_nonblank(cwd) {
                LaunchContext { cwd: c }
            } else {
                LaunchContext { cwd: fallback_cwd }
            }
        },
    }
}

/// ASCII letters and digits, `_`, `-`, `:` and `.`.
pub open spec fn id_char(c: char) -> bool {
    let u = c as u32;
    (0x30 <= u <= 0x39) || (0x41 <= u <= 0x5a) || (0x61 <= u <= 0x7a) || c == '_' || c == '-' || c == ':'
        || c == '.'
}

/// An id that is safe to pass as a command argument: not empty, not starting
/// with `-` (so it cannot be read as a flag), and made of id characters only.
pub open spec fn safe_id(s: Seq<char>) -> bool {
    &&& s.len() > 0
    &&& s[0] != '-'
    &&& forall|i: int| 0 <= i < s.len() ==> id_char(#[trigger] s[i])
}

pub fn is_id_char(c: char) -> (res: bool)
    ensures
        res == id_char(c),
{
    let u = c as u32;
    (0x30 <= u && u <= 0x39) || (0x41 <= u && u <= 0x5a) || (0x61 <= u && u <= 0x7a) || c == '_' || c == '-'
        || c == ':' || c == '.'
}

pub fn is_safe_id(id: &str) -> (res: bool)
    ensures
        res == safe_id(id@),
{
    let cs = chars_of(id);
    if cs.len() == 0 || cs[0] == '-' {
        return false;
    }
    let mut i: usize = 0;
    while i < cs.len()
        invariant
            cs@ == id@,
            i <= cs@.len(),
            forall|j: int| 0 <= j < i ==> id_char(#[trigger] cs@[j]),
        decreases cs@.len() - i,
    {
        if !is_id_char(cs[i]) {
            return false;
        }
        i += 1;
    }
    true
}

} // verus!
