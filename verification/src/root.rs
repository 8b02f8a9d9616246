//! The repository (or plain directory) the viewer shows.
use crate::context::LaunchContext;
use crate::text::{chars_of, split_ranges, split_when, string_from_range, trim, trim_range, CharClass};
use vstd::prelude::*;

verus! {

#[derive(Debug, Clone, PartialEq, Eq)]
pub struct Resolved {
    pub root: String,
    pub is_git_repo: bool,
    pub repo_root: Option<String>,
    pub repo_name: String,
}

/// The named components of a `/`-separated path: empty pieces (from repeated
/// or trailing slashes) and `.` pieces do not name anything.
pub open spec fn path_parts(ps: Seq<Seq<char>>) -> Seq<Seq<char>>
    decreases ps.len(),
{
    if ps.len() == 0 {
        seq![]
    } else {
        let r = path_parts(ps.drop_last());
        if ps.last().len() == 0 || ps.last() == seq!['.'] {
            r
        } else {
            r.push(ps.last())
        }
    }
}

/// `Path::file_name` on a `/`-separated path: its last named component,
/// unless there is none or it is `..`.
pub open spec fn file_name(p: Seq<char>) -> Option<Seq<char>> {
    let parts = path_parts(split_when(p, CharClass::Slash));
    if parts.len() == 0 || parts.last() == seq!['.', '.'] {
        None
    } else {
        Some(parts.last())
    }
}

/// The last named component of the path `p`.
pub fn file_name_of(p: &str) -> (res: Option<String>)
    ensures
        match res {
            Some(s) => file_name(p@) == Some(s@),
            None => file_name(p@) is None,
        },
{
    let cs = chars_of(p);
    let pieces = split_ranges(&cs, 0, cs.len(), CharClass::Slash);
    assert(cs@.subrange(0, cs@.len() as int) =~= p@);
    let ghost ps = pieces@.map_values(|r: (usize, usize)| cs@.subrange(r.0 as int, r.1 as int));
    let mut last: Option<(usize, usize)> = None;
    let mut k: usize = 0;
    while k < pieces.len()
        invariant
            k <= pieces@.len(),
            ps == pieces@.map_values(|r: (usize, usize)| cs@.subrange(r.0 as int, r.1 as int)),
            forall|j: int| 0 <= j < pieces@.len() ==> (#[trigger] pieces@[j]).0 <= pieces@[j].1 <= cs@.len(),
            match last {
                Some(r) => r.0 <= r.1 <= cs@.len() && path_parts(ps.take(k as int)).len() > 0 && path_parts(
                    ps.take(k as int),
                ).last() == cs@.subrange(r.0 as int, r.1 as int),
                None => path_parts(ps.take(k as int)).len() == 0,
            },
        decreases pieces@.len() - k,
    {
        let (a, b) = pieces[k];
        assert(ps.take(k + 1).drop_last() =~= ps.take(k as int));
        assert(ps.take(k + 1).last() == cs@.subrange(a as int, b as int));
        let dot = b - a == 1 && cs[a] == '.';
        assert(dot == (cs@.subrange(a as int, b as int) == seq!['.'])) by {
            if cs@.subrange(a as int, b as int) == seq!['.'] {
                assert(cs@.subrange(a as int, b as int)[0] == cs@[a as int]);
            }
            if dot {
                assert(cs@.subrange(a as int, b as int) =~= seq!['.']);
            }
        }
        if a < b && !dot {
            last = Some((a, b));
        }
        k += 1;
    }
    assert(ps.take(k as int) =~= ps);
    match last {
        None => None,
        Some((a, b)) => {
            let dotdot = b - a == 2 && cs[a] == '.' && cs[a + 1] == '.';
            assert(dotdot == (cs@.subrange(a as int, b as int) == seq!['.', '.'])) by {
                if cs@.subrange(a as int, b as int) == seq!['.', '.'] {
                    assert(cs@.subrange(a as int, b as int)[0] == cs@[a as int]);
                    assert(cs@.subrange(a as int, b as int)[1] == cs@[a + 1]);
                }
                if dotdot {
                    assert(cs@.subrange(a as int, b as int) =~= seq!['.', '.']);
                }
            }
            if dotdot {
                None
            } else {
                Some(string_from_range(&cs, a, b))
            }
        },
    }
}

/// What the viewer resolves a launch directory to, given what
/// `git rev-parse --show-toplevel` printed there (`None` when it failed):
/// the trimmed top directory of the repository, or else the directory itself.
pub open spec fn resolved_spec(cwd: Seq<char>, toplevel: Option<String>, r: Resolved) -> bool {
    match toplevel {
        Some(out) => {
            let top = trim(out@);
            &&& r.root@ == top
            &&& r.is_git_repo
            &&& r.repo_root is Some && r.repo_root->0@ == top
            &&& r.repo_name@ == match file_name(top) {
                Some(n) => n,
                None => "repo"@,
            }
        },
        None => {
            &&& r.root@ == cwd
            &&& !r.is_git_repo
            &&& r.repo_root is None
            &&& r.repo_name@ == match file_name(cwd) {
                Some(n) => n,
                None => "directory"@,
            }
        },
    }
}

/// Resolves the launch directory from the output of `crate::git::show_toplevel`.
pub fn resolve(ctx: &LaunchContext, toplevel: Option<String>) -> (res: Resolved)
    ensures
        resolved_spec(ctx.cwd@, toplevel, res),
{
    match toplevel {
        Some(out) => {
            let cs = chars_of(out.as_str());
            let (a, b) = trim_range(&cs, 0, cs.len(), CharClass::Whitespace);
            assert(cs@.subrange(0, cs@.len() as int) =~= out@);
            let top = string_from_range(&cs, a, b);
            let repo_name = match file_name_of(top.as_str()) {
                Some(n) => n,
                None => String::from_str("repo"),
            };
            Resolved { root: top.clone(), is_git_repo: true, repo_root: Some(top), repo_name }
        },
        None => {
            let repo_name = match file_name_of(ctx.cwd.as_str()) {
                Some(n) => n,
                None => String::from_str("directory"),
            };
            Resolved { root: ctx.cwd.clone(), is_git_repo: false, repo_root: None, repo_name }
        },
    }
}

/// The directory git commands run in: the repository's top, else the root.
pub fn repo_dir(resolved: &Resolved) -> (res: String)
    ensures
        res@ == match resolved.repo_root {
            Some(r) => r@,
            None => resolved.root@,
        },
{
    match &resolved.repo_root {
        Some(r) => r.clone(),
        None => resolved.root.clone(),
    }
}

} // verus!
