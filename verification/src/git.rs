//! The read-only `git` commands the viewer runs, as argument lists, and the
//! reading of what they print. Running them is the host program's part.
use crate::graph::model::strs;
use crate::text::{
    chars_of, decimal, split_ranges, split_when, string_from_range, trim, trim_range, usize_to_decimal,
    CharClass,
};
use vstd::prelude::*;

verus! {

/// The `--pretty` format of `git log` that `crate::graph::parse_log` reads:
/// hash, parents, decorations, subject, author name, author time, each
/// followed by a NUL.
pub const LOG_FORMAT: &'static str = "--pretty=format:%H%x00%P%x00%d%x00%s%x00%an%x00%at%x00";

fn push_arg(args: &mut Vec<String>, a: &str)
    ensures
        strs(final(args)@) == strs(old(args)@).push(a@),
{
    let ghost before = strs(args@);
    args.push(String::from_str(a));
    assert(strs(args@) =~= before.push(a@));
}

fn push_string(args: &mut Vec<String>, a: String)
    ensures
        strs(final(args)@) == strs(old(args)@).push(a@),
{
    let ghost before = strs(args@);
    let ghost v = a@;
    args.push(a);
    assert(strs(args@) =~= before.push(v));
}

/// Lists the local and remote branch names.
pub fn list_branches_args() -> (args: Vec<String>)
    ensures
        strs(args@) == seq!["for-each-ref"@, "--format=%(refname:short)"@, "refs/heads"@, "refs/remotes"@],
{
    let mut args: Vec<String> = Vec::new();
    push_arg(&mut args, "for-each-ref");
    push_arg(&mut args, "--format=%(refname:short)");
    push_arg(&mut args, "refs/heads");
    push_arg(&mut args, "refs/remotes");
    assert(strs(args@) =~= seq!["for-each-ref"@, "--format=%(refname:short)"@, "refs/heads"@, "refs/remotes"@]);
    args
}

/// The lines of `ps`, trimmed, without the blank ones.
pub open spec fn trimmed_lines(ps: Seq<Seq<char>>) -> Seq<Seq<char>>
    decreases ps.len(),
{
    if ps.len() == 0 {
        seq![]
    } else {
        let r = trimmed_lines(ps.drop_last());
        if trim(ps.last()).len() == 0 {
            r
        } else {
            r.push(trim(ps.last()))
        }
    }
}

/// The branch names in the output of the branch listing (none when it failed).
pub open spec fn branch_names(output: Option<String>) -> Seq<Seq<char>> {
    match output {
        Some(out) => trimmed_lines(split_when(out@, CharClass::Newline)),
        None => seq![],
    }
}

/// Reads the branch names the branch listing printed.
pub fn list_branches(output: Option<String>) -> (res: Vec<String>)
    ensures
        strs(res@) == branch_names(output),
{
    let mut out: Vec<String> = Vec::new();
    match output {
        None => {
            assert(strs(out@) =~= Seq::<Seq<char>>::empty());
            out
        },
        Some(text) => {
            let cs = chars_of(text.as_str());
            let lines = split_ranges(&cs, 0, cs.len(), CharClass::Newline);
            assert(cs@.subrange(0, cs@.len() as int) =~= text@);
            let ghost ps = lines@.map_values(|r: (usize, usize)| cs@.subrange(r.0 as int, r.1 as int));
            let mut k: usize = 0;
            assert(strs(out@) =~= Seq::<Seq<char>>::empty());
            while k < lines.len()
                invariant
                    k <= lines@.len(),
                    ps == lines@.map_values(|r: (usize, usize)| cs@.subrange(r.0 as int, r.1 as int)),
                    forall|j: int| 0 <= j < lines@.len() ==> (#[trigger] lines@[j]).0 <= lines@[j].1 <= cs@.len(),
                    strs(out@) == trimmed_lines(ps.take(k as int)),
                decreases lines@.len() - k,
            {
                let (a, b) = lines[k];
                assert(ps.take(k + 1).drop_last() =~= ps.take(k as int));
                assert(ps.take(k + 1).last() == cs@.subrange(a as int, b as int));
                let (ta, tb) = trim_range(&cs, a, b, CharClass::Whitespace);
                if ta < tb {
                    push_string(&mut out, string_from_range(&cs, ta, tb));
                }
                k += 1;
            }
            assert(ps.take(k as int) =~= ps);
            out
        },
    }
}

/// Shows a commit's full metadata and patch, without external diff tools or color.
pub fn show_commit(hash: &str) -> (args: Vec<String>)
    ensures
        strs(args@) == seq!["show"@, "--format=fuller"@, "--no-ext-diff"@, "--no-color"@, hash@],
{
    let mut args: Vec<String> = Vec::new();
    push_arg(&mut args, "show");
    push_arg(&mut args, "--format=fuller");
    push_arg(&mut args, "--no-ext-diff");
    push_arg(&mut args, "--no-color");
    push_arg(&mut args, hash);
    assert(strs(args@) =~= seq!["show"@, "--format=fuller"@, "--no-ext-diff"@, "--no-color"@, hash@]);
    args
}

/// Shows a commit's patch alone.
pub fn show_diff(hash: &str) -> (args: Vec<String>)
    ensures
        strs(args@) == seq!["show"@, "--format="@, "--no-ext-diff"@, "--no-color"@, "--patch"@, hash@],
{
    let mut args: Vec<String> = Vec::new();
    push_arg(&mut args, "show");
    push_arg(&mut args, "--format=");
    push_arg(&mut args, "--no-ext-diff");
    push_arg(&mut args, "--no-color");
    push_arg(&mut args, "--patch");
    push_arg(&mut args, hash);
    assert(strs(args@) =~= seq!["show"@, "--format="@, "--no-ext-diff"@, "--no-color"@, "--patch"@, hash@]);
    args
}

/// The history of the local branches, at most `limit` commits.
pub fn log_commits_local(limit: usize) -> (args: Vec<String>)
    ensures
        strs(args@) == seq![
            "log"@,
            "refs/heads"@,
            "--topo-order"@,
            "--date-order"@,
            "-n"@,
            decimal(limit as nat),
            LOG_FORMAT@,
        ],
{
    let mut args: Vec<String> = Vec::new();
    push_arg(&mut args, "log");
    push_arg(&mut args, "refs/heads");
    push_arg(&mut args, "--topo-order");
    push_arg(&mut args, "--date-order");
    push_arg(&mut args, "-n");
    push_string(&mut args, usize_to_decimal(limit));
    push_arg(&mut args, LOG_FORMAT);
    assert(strs(args@) =~= seq![
        "log"@,
        "refs/heads"@,
        "--topo-order"@,
        "--date-order"@,
        "-n"@,
        decimal(limit as nat),
        LOG_FORMAT@,
    ]);
    args
}

/// The history of one branch, or of all refs, at most `limit` commits.
pub fn log_commits(limit: usize, branch: Option<&str>) -> (args: Vec<String>)
    ensures
        strs(args@) == seq![
            "log"@,
            "--topo-order"@,
            "--date-order"@,
            "-n"@,
            decimal(limit as nat),
            LOG_FORMAT@,
            match branch {
                Some(b) => b@,
                None => "--all"@,
            },
        ],
{
    let mut args: Vec<String> = Vec::new();
    push_arg(&mut args, "log");
    push_arg(&mut args, "--topo-order");
    push_arg(&mut args, "--date-order");
    push_arg(&mut args, "-n");
    push_string(&mut args, usize_to_decimal(limit));
    push_arg(&mut args, LOG_FORMAT);
    match branch {
        Some(b) => push_arg(&mut args, b),
        None => push_arg(&mut args, "--all"),
    }
    assert(strs(args@) =~= seq![
        "log"@,
        "--topo-order"@,
        "--date-order"@,
        "-n"@,
        decimal(limit as nat),
        LOG_FORMAT@,
        match branch {
            Some(b) => b@,
            None => "--all"@,
        },
    ]);
    args
}

/// The top directory of the work tree that holds the current directory.
pub fn show_toplevel() -> (args: Vec<String>)
    ensures
        strs(args@) == seq!["rev-parse"@, "--show-toplevel"@],
{
    let mut args: Vec<String> = Vec::new();
    push_arg(&mut args, "rev-parse");
    push_arg(&mut args, "--show-toplevel");
    assert(strs(args@) =~= seq!["rev-parse"@, "--show-toplevel"@]);
    args
}

/// The options that go before every command: no file system monitor, no
/// hooks (their path is the null device), no external diff program.
pub open spec fn hardening_options(null_device: Seq<char>) -> Seq<Seq<char>> {
    seq!["-c"@, "core.fsmonitor=false"@, "-c"@, "core.hooksPath="@ + null_device, "-c"@, "diff.external="@]
}

/// The full argument list of a git command, hardened against running
/// anything but git itself.
pub open spec fn hardened_argv(null_device: Seq<char>, args: Seq<Seq<char>>) -> Seq<Seq<char>> {
    hardening_options(null_device) + args
}

/// The arguments git is run with for `args`: the hardening options, then
/// `args`. `null_device` is the host's null device.
pub fn hardened_git_args(null_device: &str, args: &Vec<String>) -> (argv: Vec<String>)
    ensures
        strs(argv@) == hardened_argv(null_device@, strs(args@)),
{
    let mut argv: Vec<String> = Vec::new();
    push_arg(&mut argv, "-c");
    push_arg(&mut argv, "core.fsmonitor=false");
    push_arg(&mut argv, "-c");
    let mut hooks = String::from_str("core.hooksPath=");
    hooks.append(null_device);
    push_string(&mut argv, hooks);
    push_arg(&mut argv, "-c");
    push_arg(&mut argv, "diff.external=");
    assert(strs(argv@) =~= hardening_options(null_device@));
    let mut k: usize = 0;
    while k < args.len()
        invariant
            k <= args@.len(),
            strs(argv@) == hardening_options(null_device@) + strs(args@).take(k as int),
        decreases args@.len() - k,
    {
        push_arg(&mut argv, args[k].as_str());
        assert(strs(args@).take(k + 1) =~= strs(args@).take(k as int).push(args@[k as int]@));
        assert(strs(argv@) =~= hardening_options(null_device@) + strs(args@).take(k + 1));
        k += 1;
    }
    assert(strs(args@).take(k as int) =~= strs(args@));
    argv
}

/// The environment variables removed before git runs: none of them may
/// point git at another repository, index or object store.
pub open spec fn removed_env() -> Seq<Seq<char>> {
    seq![
        "GIT_DIR"@,
        "GIT_WORK_TREE"@,
        "GIT_INDEX_FILE"@,
        "GIT_OBJECT_DIRECTORY"@,
        "GIT_ALTERNATE_OBJECT_DIRECTORIES"@,
        "GIT_CEILING_DIRECTORIES"@,
        "GIT_DISCOVERY_ACROSS_FILESYSTEM"@,
    ]
}

/// The environment variables set before git runs: git takes no optional
/// locks, so reading never writes the index.
pub open spec fn set_env() -> Seq<(Seq<char>, Seq<char>)> {
    seq![("GIT_OPTIONAL_LOCKS"@, "0"@)]
}

/// The environment changes for every git command: the variables to remove,
/// and the variables to set with their values.
pub fn git_env_overrides() -> (r: (Vec<String>, Vec<(String, String)>))
    ensures
        strs(r.0@) == removed_env(),
        r.1@.map_values(|p: (String, String)| (p.0@, p.1@)) == set_env(),
{
    let mut removed: Vec<String> = Vec::new();
    push_arg(&mut removed, "GIT_DIR");
    push_arg(&mut removed, "GIT_WORK_TREE");
    push_arg(&mut removed, "GIT_INDEX_FILE");
    push_arg(&mut removed, "GIT_OBJECT_DIRECTORY");
    push_arg(&mut removed, "GIT_ALTERNATE_OBJECT_DIRECTORIES");
    push_arg(&mut removed, "GIT_CEILING_DIRECTORIES");
    push_arg(&mut removed, "GIT_DISCOVERY_ACROSS_FILESYSTEM");
    assert(strs(removed@) =~= removed_env());
    let mut set: Vec<(String, String)> = Vec::new();
    set.push((String::from_str("GIT_OPTIONAL_LOCKS"), String::from_str("0")));
    assert(set@.map_values(|p: (String, String)| (p.0@, p.1@)) =~= set_env());
    (removed, set)
}

} // verus!
