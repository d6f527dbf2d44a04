//! The two checks run on each repository: working-tree status and unpushed
//! branches. Each turns the version-control tool's answers into a summary
//! code and a detail message.
use vstd::prelude::*;
use vstd::string::StringExecFns;
use crate::branches::{
    copy_names, lemma_unpushed_stays_empty, merged_views, strings, unpushed, unpushed_outcome,
    BranchQuery, Stage, UnpushedResolver,
};
use crate::text::{lines_of, split_lines, trim, trim_span};

verus! {

broadcast use vstd::string::group_string_axioms;

/// The options that the command line sets for a scan.
pub struct Args {
    pub flag_version: bool,
    pub flag_all: bool,
    pub flag_no_untracked: bool,
    pub flag_no_modified: bool,
    pub flag_no_unpushed: bool,
    pub flag_verbose: bool,
    pub arg_path: String,
}

/// What a check returns: on success the summary code and the detail
/// message, on failure the tool's diagnostic text.
pub type CheckResult = Result<(String, String), String>;

/// A status line for an untracked file: trimmed, it starts with `??`.
pub open spec fn is_untracked_line(l: Seq<char>) -> bool {
    let t = trim(l, false);
    t.len() >= 2 && t[0] == '?' && t[1] == '?'
}

/// A status line for a modified or staged file: trimmed, it is not empty and
/// does not start with `??`.
pub open spec fn is_modified_line(l: Seq<char>) -> bool {
    trim(l, false).len() > 0 && !is_untracked_line(l)
}

/// Some line of the status output marks an untracked file.
pub open spec fn any_untracked(out: Seq<char>) -> bool {
    exists|i: int| 0 <= i < split_lines(out).len() && is_untracked_line(#[trigger] split_lines(out)[i])
}

/// Some line of the status output marks a modified or staged file.
pub open spec fn any_modified(out: Seq<char>) -> bool {
    exists|i: int| 0 <= i < split_lines(out).len() && is_modified_line(#[trigger] split_lines(out)[i])
}

/// The summary code of the status check: `U` for untracked files, then `M`
/// for modified ones, each left out when its report is switched off.
pub open spec fn status_code(no_untracked: bool, no_modified: bool, out: Seq<char>) -> Seq<char> {
    (if any_untracked(out) && !no_untracked { seq!['U'] } else { Seq::empty() })
        + (if any_modified(out) && !no_modified { seq!['M'] } else { Seq::empty() })
}

/// Classifies one status line: (untracked, modified).
fn classify_status_line(line: &Vec<char>) -> (r: (bool, bool))
    ensures
        r.0 == is_untracked_line(line@),
        r.1 == is_modified_line(line@),
{
    let (i, j) = trim_span(line, false);
    let ghost t = line@.subrange(i as int, j as int);
    let untracked = j - i >= 2 && line[i] == '?' && line[i + 1] == '?';
    proof {
        if j - i >= 2 {
            assert(t[0] == line@[i as int]);
            assert(t[1] == line@[i + 1]);
        }
    }
    (untracked, i < j && !untracked)
}

/// Checks the output of `git status --porcelain` for untracked (`U`) and
/// modified (`M`) files. The detail message is always empty.
pub fn check_untracked_modified(args: &Args, status: &str) -> (r: (String, String))
    ensures
        r.0@ == status_code(args.flag_no_untracked, args.flag_no_modified, status@),
        r.1@ == Seq::<char>::empty(),
{
    let lines = lines_of(status);
    let mut untracked = false;
    let mut modified = false;
    let mut k: usize = 0;
    while k < lines.len()
        invariant
            crate::text::views(lines@) == split_lines(status@),
            k <= lines@.len(),
            untracked == exists|i: int| 0 <= i < k && is_untracked_line(#[trigger] split_lines(status@)[i]),
            modified == exists|i: int| 0 <= i < k && is_modified_line(#[trigger] split_lines(status@)[i]),
        decreases lines@.len() - k,
    {
        assert(lines@[k as int]@ == split_lines(status@)[k as int]);
        let (u, m) = classify_status_line(&lines[k]);
        untracked = untracked || u;
        modified = modified || m;
        k = k + 1;
    }
    let mut summary = String::new();
    proof {
        reveal_strlit("U");
        reveal_strlit("M");
    }
    if untracked && !args.flag_no_untracked {
        summary.append("U");
    }
    if modified && !args.flag_no_modified {
        summary.append("M");
    }
    proof {
        assert(summary@ =~= status_code(args.flag_no_untracked, args.flag_no_modified, status@));
    }
    (summary, String::new())
}

/// With neither report switched off, the status code is `UM` exactly when
/// some line marks an untracked file and some other non-empty line exists.
pub proof fn lemma_status_both(out: Seq<char>)
    ensures
        status_code(false, false, out) == seq!['U', 'M'] <==> (any_untracked(out) && any_modified(out)),
{
    let code = status_code(false, false, out);
    if any_untracked(out) && any_modified(out) {
        assert(code =~= seq!['U', 'M']);
    } else if any_untracked(out) {
        assert(code =~= seq!['U']);
    } else if any_modified(out) {
        assert(code =~= seq!['M']);
        assert(code[0] != seq!['U', 'M'][0]);
    } else {
        assert(code =~= Seq::<char>::empty());
    }
}

/// Goes through all local branches and makes sure each is merged into at
/// least one remote branch (`P` otherwise), given the tool's answers:
/// `local` and `remotes` list the local and remote branches, `merged[i]` the
/// local branches merged into `remotes[i]`. Once no local branch is left
/// the remaining lists are not consulted.
pub fn check_unpushed_branches(
    args: &Args,
    local: Vec<String>,
    remotes: Vec<String>,
    merged: &Vec<Vec<String>>,
) -> (r: (String, String))
    requires
        merged@.len() == remotes@.len(),
    ensures
        (r.0@, r.1@) == unpushed_outcome(args.flag_no_unpushed, strings(local@), merged_views(merged@)),
{
    let mut res = UnpushedResolver::new(args);
    let ghost l = strings(local@);
    let ghost m = merged_views(merged@);
    res.answer(local);
    res.answer(remotes);
    assert(m.take(0) =~= Seq::<Seq<Seq<char>>>::empty());
    loop
        invariant
            res.skip == args.flag_no_unpushed,
            m == merged_views(merged@),
            res.next <= merged@.len(),
            !res.skip ==> merged@.len() == res.remotes@.len(),
            !res.skip ==> res.stage == Stage::Merging,
            !res.skip ==> strings(res.branch_set@) == unpushed(l, m.take(res.next as int)),
            res.skip ==> res.branch_set@.len() == 0,
        ensures
            res.finished(),
            res.skip == args.flag_no_unpushed,
            m == merged_views(merged@),
            res.next <= merged@.len(),
            !res.skip ==> merged@.len() == res.remotes@.len(),
            !res.skip ==> strings(res.branch_set@) == unpushed(l, m.take(res.next as int)),
            res.skip ==> res.branch_set@.len() == 0,
        decreases merged@.len() - res.next,
    {
        match res.next_query() {
            Some(BranchQuery::MergedInto(_)) => {
                let ghost k = res.next as int;
                let reply = copy_names(&merged[res.next]);
                res.answer(reply);
                assert(m.take(k + 1).drop_last() =~= m.take(k));
                assert(m.take(k + 1).last() == strings(merged@[k]@));
            },
            _ => {
                break;
            },
        }
    }
    proof {
        if !res.skip {
            if res.branch_set@.len() == 0 {
                lemma_unpushed_stays_empty(l, m, res.next as int);
            } else {
                assert(m.take(res.next as int) =~= m);
            }
        }
    }
    res.outcome()
}

} // verus!
