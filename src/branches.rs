//! Branch listings: parsing the output of `git branch`, and the set of local
//! branches that no remote has merged yet.
use vstd::prelude::*;
use vstd::string::StringExecFns;
use crate::checks::Args;
use crate::text::{
    is_space, lemma_trim_end_at, lemma_trim_start_at, lines_of, space, split_lines, string_of,
    trim, trim_span, trim_start, views,
};

verus! {

/// The leading run of `u` that holds no whitespace.
pub open spec fn take_word(u: Seq<char>) -> Seq<char>
    decreases u.len(),
{
    if u.len() > 0 && !is_space(u[0]) {
        seq![u[0]] + take_word(u.drop_first())
    } else {
        Seq::empty()
    }
}

/// The branch name that one line of a listing gives, if any: the line is
/// trimmed of markers; an empty line, or one that starts with `(` (a
/// detached head), gives none; else its first whitespace-delimited word.
pub open spec fn branch_of_line(l: Seq<char>) -> Option<Seq<char>> {
    let t = trim(l, true);
    if t.len() == 0 || t[0] == '(' {
        None
    } else {
        let w = take_word(trim_start(t, false));
        if w.len() == 0 {
            None
        } else {
            Some(w)
        }
    }
}

/// The branch names that a sequence of listing lines gives, in order.
pub open spec fn names_of_lines(ls: Seq<Seq<char>>) -> Seq<Seq<char>>
    decreases ls.len(),
{
    if ls.len() == 0 {
        Seq::empty()
    } else {
        names_of_lines(ls.drop_last()) + match branch_of_line(ls.last()) {
            Some(w) => seq![w],
            None => Seq::empty(),
        }
    }
}

/// The branch names of the output of a `git branch` listing.
pub open spec fn branch_names(out: Seq<char>) -> Seq<Seq<char>> {
    names_of_lines(split_lines(out))
}

/// The contents of each string of `v`.
pub open spec fn strings(v: Seq<String>) -> Seq<Seq<char>> {
    v.map_values(|s: String| s@)
}

proof fn lemma_take_word_at(u: Seq<char>, m: int)
    requires
        0 <= m <= u.len(),
        forall|k: int| 0 <= k < m ==> !is_space(#[trigger] u[k]),
        m == u.len() || is_space(u[m]),
    ensures
        take_word(u) == u.subrange(0, m),
    decreases m,
{
    if m == 0 {
        assert(u.subrange(0, 0) =~= Seq::<char>::empty());
    } else {
        let t = u.drop_first();
        assert forall|k: int| 0 <= k < m - 1 implies !is_space(#[trigger] t[k]) by {
            assert(t[k] == u[k + 1]);
        }
        if m - 1 < t.len() {
            assert(t[m - 1] == u[m]);
        }
        lemma_take_word_at(t, m - 1);
        assert(seq![u[0]] + t.subrange(0, m - 1) =~= u.subrange(0, m));
    }
}

/// The branch name on one line of a listing.
fn branch_of(line: &Vec<char>) -> (r: Option<String>)
    ensures
        match r {
            Some(s) => branch_of_line(line@) == Some(s@),
            None => branch_of_line(line@) is None,
        },
{
    let (i, j) = trim_span(line, true);
    let ghost t = line@.subrange(i as int, j as int);
    if i == j {
        return None;
    }
    assert(t[0] == line@[i as int]);
    if line[i] == '(' {
        return None;
    }
    let mut k: usize = i;
    while k < j && space(line[k])
        invariant
            i <= k <= j <= line@.len(),
            forall|x: int| i <= x < k ==> is_space(#[trigger] line@[x]),
        decreases j - k,
    {
        k = k + 1;
    }
    proof {
        assert forall|x: int| 0 <= x < k - i implies crate::text::strips(false, #[trigger] t[x]) by {
            assert(t[x] == line@[x + i]);
        }
        if k < j {
            assert(t[k - i] == line@[k as int]);
        }
        lemma_trim_start_at(t, false, k - i);
    }
    let ghost u = t.subrange(k - i, t.len() as int);
    let mut m: usize = k;
    while m < j && !space(line[m])
        invariant
            k <= m <= j <= line@.len(),
            forall|x: int| k <= x < m ==> !is_space(#[trigger] line@[x]),
        decreases j - m,
    {
        m = m + 1;
    }
    proof {
        assert forall|x: int| 0 <= x < m - k implies !is_space(#[trigger] u[x]) by {
            assert(u[x] == line@[x + k]);
        }
        if m < j {
            assert(u[m - k] == line@[m as int]);
        }
        lemma_take_word_at(u, m - k);
        assert(u.subrange(0, m - k) =~= line@.subrange(k as int, m as int));
    }
    if k == m {
        None
    } else {
        Some(string_of(line, k, m))
    }
}

/// Parses the output of a `git branch` listing into branch names: each line
/// is trimmed of blanks, carriage returns, tabs and the asterisk that marks
/// the checked-out branch; empty lines and those that start with `(` are
/// dropped; of the others the first whitespace-delimited word is the name.
pub fn parse_branch_list(out: &str) -> (r: Vec<String>)
    ensures
        strings(r@) == branch_names(out@),
{
    let lines = lines_of(out);
    let mut res: Vec<String> = Vec::new();
    let mut k: usize = 0;
    while k < lines.len()
        invariant
            views(lines@) == split_lines(out@),
            k <= lines@.len(),
            strings(res@) == names_of_lines(split_lines(out@).subrange(0, k as int)),
        decreases lines@.len() - k,
    {
        let ghost pre = split_lines(out@).subrange(0, k as int);
        let ghost next = split_lines(out@).subrange(0, k + 1);
        assert(next.drop_last() =~= pre);
        assert(lines@[k as int]@ == split_lines(out@)[k as int]);
        let ghost before = strings(res@);
        match branch_of(&lines[k]) {
            Some(name) => {
                res.push(name);
                assert(strings(res@) =~= before.push(name@));
                assert(strings(res@) =~= names_of_lines(next));
            },
            None => {
                assert(strings(res@) =~= names_of_lines(next));
            },
        }
        k = k + 1;
    }
    assert(split_lines(out@).subrange(0, k as int) =~= split_lines(out@));
    res
}

/// `local` without the names that occur in `merged`, order kept.
pub open spec fn without(local: Seq<Seq<char>>, merged: Seq<Seq<char>>) -> Seq<Seq<char>>
    decreases local.len(),
{
    if local.len() == 0 {
        Seq::empty()
    } else {
        let rest = without(local.drop_last(), merged);
        if merged.contains(local.last()) {
            rest
        } else {
            rest.push(local.last())
        }
    }
}

/// The local branches that none of the merged lists holds: `merged[i]` is
/// the list of local branches merged into the `i`-th remote branch.
pub open spec fn unpushed(local: Seq<Seq<char>>, merged: Seq<Seq<Seq<char>>>) -> Seq<Seq<char>>
    decreases merged.len(),
{
    if merged.len() == 0 {
        local
    } else {
        without(unpushed(local, merged.drop_last()), merged.last())
    }
}

/// `names` joined by `", "`.
pub open spec fn join(names: Seq<Seq<char>>) -> Seq<char>
    decreases names.len(),
{
    if names.len() == 0 {
        Seq::empty()
    } else if names.len() == 1 {
        names[0]
    } else {
        join(names.drop_last()) + seq![',', ' '] + names.last()
    }
}

/// The start of the detail message of the unpushed-branch check.
pub open spec fn unpushed_prefix() -> Seq<char> {
    "(P) The following branches were not pushed to any remote: "@
}

/// The summary code and detail message for the branches that are left
/// unpushed: `P` and their list, or nothing when none is left.
pub open spec fn unpushed_report(left: Seq<Seq<char>>) -> (Seq<char>, Seq<char>) {
    if left.len() == 0 {
        (Seq::empty(), Seq::empty())
    } else {
        (seq!['P'], unpushed_prefix() + join(left))
    }
}

/// The outcome of the unpushed-branch check: nothing when the check is
/// switched off, else the report on the local branches that no remote has
/// merged.
pub open spec fn unpushed_outcome(
    no_unpushed: bool,
    local: Seq<Seq<char>>,
    merged: Seq<Seq<Seq<char>>>,
) -> (Seq<char>, Seq<char>) {
    if no_unpushed {
        (Seq::empty(), Seq::empty())
    } else {
        unpushed_report(unpushed(local, merged))
    }
}

/// Whether `names` holds `name`.
pub fn contains_name(names: &Vec<String>, name: &String) -> (r: bool)
    ensures
        r == strings(names@).contains(name@),
{
    let mut k: usize = 0;
    while k < names.len()
        invariant
            k <= names@.len(),
            forall|x: int| 0 <= x < k ==> names@[x]@ != name@,
        decreases names@.len() - k,
    {
        if names[k] == *name {
            assert(strings(names@)[k as int] == name@);
            return true;
        }
        k = k + 1;
    }
    proof {
        if strings(names@).contains(name@) {
            let x = choose|x: int| 0 <= x < strings(names@).len() && strings(names@)[x] == name@;
            assert(names@[x]@ == name@);
        }
    }
    false
}

/// A copy of `names`.
pub fn copy_names(names: &Vec<String>) -> (r: Vec<String>)
    ensures
        strings(r@) == strings(names@),
{
    let mut out: Vec<String> = Vec::new();
    let mut k: usize = 0;
    while k < names.len()
        invariant
            k <= names@.len(),
            strings(out@) == strings(names@.subrange(0, k as int)),
        decreases names@.len() - k,
    {
        let ghost before = strings(out@);
        out.push(names[k].clone());
        assert(strings(out@) =~= before.push(names@[k as int]@));
        k = k + 1;
        assert(strings(out@) =~= strings(names@.subrange(0, k as int)));
    }
    assert(names@.subrange(0, k as int) =~= names@);
    out
}

/// The names of `local` that `merged` does not hold, order kept.
pub fn remove_merged(local: &Vec<String>, merged: &Vec<String>) -> (r: Vec<String>)
    ensures
        strings(r@) == without(strings(local@), strings(merged@)),
{
    let mut out: Vec<String> = Vec::new();
    let mut k: usize = 0;
    while k < local.len()
        invariant
            k <= local@.len(),
            strings(out@) == without(strings(local@.subrange(0, k as int)), strings(merged@)),
        decreases local@.len() - k,
    {
        let ghost pre = strings(local@.subrange(0, k as int));
        let ghost next = strings(local@.subrange(0, k + 1));
        assert(next.drop_last() =~= pre);
        assert(next.last() == local@[k as int]@);
        if !contains_name(merged, &local[k]) {
            let ghost before = strings(out@);
            out.push(local[k].clone());
            assert(strings(out@) =~= before.push(local@[k as int]@));
        }
        k = k + 1;
    }
    assert(local@.subrange(0, k as int) =~= local@);
    out
}

/// `names` joined by `", "`.
pub fn join_names(names: &Vec<String>) -> (r: String)
    ensures
        r@ == join(strings(names@)),
{
    let mut out = String::new();
    let mut k: usize = 0;
    while k < names.len()
        invariant
            k <= names@.len(),
            out@ == join(strings(names@.subrange(0, k as int))),
        decreases names@.len() - k,
    {
        let ghost next = strings(names@.subrange(0, k + 1));
        let ghost before = out@;
        assert(next.drop_last() =~= strings(names@.subrange(0, k as int)));
        assert(next.last() == names@[k as int]@);
        proof {
            reveal_strlit(", ");
        }
        if k > 0 {
            out.append(", ");
        }
        out.append(names[k].as_str());
        if k == 0 {
            assert(before == Seq::<char>::empty());
            assert(out@ =~= next[0]);
        } else {
            assert(out@ =~= before + seq![',', ' '] + next.last());
        }
        k = k + 1;
    }
    assert(names@.subrange(0, k as int) =~= names@);
    out
}

/// The summary code and detail message for the branches that are left.
pub fn report_unpushed(left: &Vec<String>) -> (r: (String, String))
    ensures
        (r.0@, r.1@) == unpushed_report(strings(left@)),
{
    if left.len() == 0 {
        (String::new(), String::new())
    } else {
        proof {
            reveal_strlit("P");
            reveal_strlit("(P) The following branches were not pushed to any remote: ");
        }
        let list = join_names(left);
        let mut msg = String::from_str("(P) The following branches were not pushed to any remote: ");
        msg.append(list.as_str());
        (String::from_str("P"), msg)
    }
}

/// Every name that `without` keeps stood in `local` and not in `merged`: a
/// removed name never comes back.
pub proof fn lemma_without_subset(local: Seq<Seq<char>>, merged: Seq<Seq<char>>, name: Seq<char>)
    ensures
        without(local, merged).contains(name) ==> local.contains(name) && !merged.contains(name),
    decreases local.len(),
{
    if local.len() > 0 {
        let l = local.drop_last();
        lemma_without_subset(l, merged, name);
        if without(local, merged).contains(name) {
            let rest = without(l, merged);
            if rest.contains(name) {
                let i = choose|i: int| 0 <= i < l.len() && l[i] == name;
                assert(local[i] == name);
            } else {
                assert(rest.push(local.last()).last() == local.last());
                let i = choose|i: int| 0 <= i < without(local, merged).len() && without(local, merged)[i] == name;
                assert(i == rest.len());
                assert(local[local.len() - 1] == name);
            }
        }
    }
}

/// Once no local branch is left, later merged lists change nothing.
pub proof fn lemma_unpushed_stays_empty(
    local: Seq<Seq<char>>,
    merged: Seq<Seq<Seq<char>>>,
    k: int,
)
    requires
        0 <= k <= merged.len(),
        unpushed(local, merged.take(k)).len() == 0,
    ensures
        unpushed(local, merged).len() == 0,
    decreases merged.len(),
{
    if merged.len() == k {
        assert(merged.take(k) =~= merged);
    } else {
        let m = merged.drop_last();
        assert(m.take(k) =~= merged.take(k));
        lemma_unpushed_stays_empty(local, m, k);
    }
}

/// The stages of the unpushed-branch check.
#[derive(PartialEq, Eq, Structural, Clone, Copy)]
pub enum Stage {
    /// The local branches are asked for next.
    Local,
    /// The remote branches are asked for next.
    Remote,
    /// The remotes are asked, one by one, which local branches they have merged.
    Merging,
}

/// A query of the unpushed-branch check to the version-control tool.
pub enum BranchQuery {
    /// `git branch`: the local branches.
    LocalBranches,
    /// `git branch -r`: the remote branches.
    RemoteBranches,
    /// `git branch --merged <remote>`: the local branches merged into a remote branch.
    MergedInto(String),
}

/// The unpushed-branch check as a sequence of queries: the caller asks
/// `next_query`, runs it, and hands its answer to `answer`, until no query
/// is left; then `outcome` gives the result.
pub struct UnpushedResolver {
    /// The check is switched off: no query is made.
    pub skip: bool,
    pub stage: Stage,
    /// The local branches that no remote seen so far has merged.
    pub branch_set: Vec<String>,
    pub remotes: Vec<String>,
    /// The index of the next remote branch to ask about.
    pub next: usize,
}

impl UnpushedResolver {
    /// No query is left: the check is off, or every remote has been asked,
    /// or no local branch is left to account for.
    pub open spec fn finished(&self) -> bool {
        self.skip || (self.stage == Stage::Merging && (self.branch_set@.len() == 0 || self.next
            >= self.remotes@.len()))
    }

    pub fn new(args: &Args) -> (r: Self)
        ensures
            r.skip == args.flag_no_unpushed,
            r.stage == Stage::Local,
            r.branch_set@.len() == 0,
            r.remotes@.len() == 0,
            r.next == 0,
    {
        UnpushedResolver {
            skip: args.flag_no_unpushed,
            stage: Stage::Local,
            branch_set: Vec::new(),
            remotes: Vec::new(),
            next: 0,
        }
    }

    /// The query to run next, or `None` once the check is finished.
    pub fn next_query(&self) -> (r: Option<BranchQuery>)
        ensures
            match r {
                None => self.finished(),
                Some(BranchQuery::LocalBranches) => !self.finished() && self.stage == Stage::Local,
                Some(BranchQuery::RemoteBranches) => !self.finished() && self.stage
                    == Stage::Remote,
                Some(BranchQuery::MergedInto(b)) => !self.finished() && self.stage
                    == Stage::Merging && b@ == self.remotes@[self.next as int]@,
            },
    {
        if self.skip {
            None
        } else if self.stage == Stage::Local {
            Some(BranchQuery::LocalBranches)
        } else if self.stage == Stage::Remote {
            Some(BranchQuery::RemoteBranches)
        } else if self.branch_set.len() == 0 || self.next >= self.remotes.len() {
            None
        } else {
            Some(BranchQuery::MergedInto(self.remotes[self.next].clone()))
        }
    }

    /// Takes the answer to the pending query: the local branches, the
    /// remote branches, or the local branches merged into the remote branch
    /// asked about, which leave the branch set. With no query pending it
    /// changes nothing.
    pub fn answer(&mut self, reply: Vec<String>)
        ensures
            old(self).finished() ==> *final(self) == *old(self),
            !old(self).finished() ==> final(self).skip == old(self).skip,
            !old(self).finished() && old(self).stage == Stage::Local ==> final(self).stage
                == Stage::Remote && final(self).branch_set == reply && final(self).remotes
                == old(self).remotes && final(self).next == old(self).next,
            !old(self).finished() && old(self).stage == Stage::Remote ==> final(self).stage
                == Stage::Merging && final(self).branch_set == old(self).branch_set
                && final(self).remotes == reply && final(self).next == 0,
            !old(self).finished() && old(self).stage == Stage::Merging ==> final(self).stage
                == Stage::Merging && strings(final(self).branch_set@) == without(
                strings(old(self).branch_set@),
                strings(reply@),
            ) && final(self).remotes == old(self).remotes && final(self).next == old(
                self,
            ).next + 1,
    {
        if self.skip {
        } else if self.stage == Stage::Local {
            self.branch_set = reply;
            self.stage = Stage::Remote;
        } else if self.stage == Stage::Remote {
            self.remotes = reply;
            self.stage = Stage::Merging;
            self.next = 0;
        } else if self.branch_set.len() == 0 || self.next >= self.remotes.len() {
        } else {
            self.branch_set = remove_merged(&self.branch_set, &reply);
            self.next = self.next + 1;
        }
    }

    /// The summary code and detail message: `P` and the list of the local
    /// branches left, or nothing when none is left.
    pub fn outcome(&self) -> (r: (String, String))
        ensures
            (r.0@, r.1@) == unpushed_report(strings(self.branch_set@)),
    {
        report_unpushed(&self.branch_set)
    }
}

/// What each list of `m` holds.
pub open spec fn merged_views(m: Seq<Vec<String>>) -> Seq<Seq<Seq<char>>> {
    m.map_values(|v: Vec<String>| strings(v@))
}

/// Only blanks and tabs.
pub open spec fn is_blank_run(s: Seq<char>) -> bool {
    forall|i: int| 0 <= i < s.len() ==> (#[trigger] s[i] == ' ' || s[i] == '\t')
}

/// A name as a branch listing writes it: not empty, without whitespace or
/// asterisks, and not starting with `(`.
pub open spec fn is_plain_name(n: Seq<char>) -> bool {
    &&& n.len() > 0
    &&& n[0] != '('
    &&& forall|i: int| 0 <= i < n.len() ==> !is_space(#[trigger] n[i]) && n[i] != '*'
}

/// Output without a newline is one line.
pub proof fn lemma_split_single_line(s: Seq<char>)
    requires
        forall|i: int| 0 <= i < s.len() ==> #[trigger] s[i] != '\n',
    ensures
        split_lines(s) == seq![s],
    decreases s.len(),
{
    if s.len() > 0 {
        let p = s.drop_last();
        assert forall|i: int| 0 <= i < p.len() implies #[trigger] p[i] != '\n' by {
            assert(p[i] == s[i]);
        }
        lemma_split_single_line(p);
        assert(s[s.len() - 1] != '\n');
        assert(p.push(s.last()) =~= s);
        assert(seq![p].update(0, p.push(s.last())) =~= seq![s]);
    } else {
        assert(s =~= Seq::<char>::empty());
    }
}

/// A line that holds a name with a single leading asterisk and blanks and
/// tabs around them parses to that name alone: the markers are stripped and
/// nothing else.
pub proof fn lemma_marked_name(a: Seq<char>, b: Seq<char>, n: Seq<char>, c: Seq<char>)
    requires
        is_blank_run(a),
        is_blank_run(b),
        is_blank_run(c),
        is_plain_name(n),
    ensures
        branch_names(a + seq!['*'] + b + n + c) == seq![n],
{
    let line = a + seq!['*'] + b + n + c;
    let i: int = (a.len() + 1 + b.len()) as int;
    assert forall|k: int| 0 <= k < line.len() implies #[trigger] line[k] != '\n' by {
        if k < a.len() {
            assert(line[k] == a[k]);
        } else if k == a.len() {
        } else if k < i {
            assert(line[k] == b[k - a.len() - 1]);
        } else if k < i + n.len() {
            assert(line[k] == n[k - i]);
        } else {
            assert(line[k] == c[k - i - n.len()]);
        }
    }
    lemma_split_single_line(line);
    assert forall|k: int| 0 <= k < i implies crate::text::strips(true, #[trigger] line[k]) by {
        if k < a.len() {
            assert(line[k] == a[k]);
        } else if k == a.len() {
        } else {
            assert(line[k] == b[k - a.len() - 1]);
        }
    }
    assert(line[i] == n[0]);
    lemma_trim_start_at(line, true, i);
    let u = line.subrange(i, line.len() as int);
    assert(u =~= n + c);
    assert forall|k: int| n.len() <= k < u.len() implies crate::text::strips(true, #[trigger] u[k]) by {
        assert(u[k] == c[k - n.len()]);
    }
    assert(u[n.len() - 1] == n[n.len() - 1]);
    lemma_trim_end_at(u, true, n.len() as int);
    assert(u.subrange(0, n.len() as int) =~= n);
    assert(trim(line, true) == n);
    lemma_trim_start_at(n, false, 0);
    assert(n.subrange(0, n.len() as int) =~= n);
    lemma_take_word_at(n, n.len() as int);
    assert(branch_of_line(line) == Some(n));
    let ls = seq![line];
    assert(ls.drop_last() =~= Seq::<Seq<char>>::empty());
    assert(names_of_lines(ls.drop_last()) == Seq::<Seq<char>>::empty());
    assert(ls.last() == line);
    assert(names_of_lines(ls) =~= seq![n]);
}

/// With no remote branch, every local branch is reported: for a non-empty
/// list of local branches the outcome is `P` with the whole list.
pub proof fn lemma_no_remotes(local: Seq<Seq<char>>)
    requires
        local.len() > 0,
    ensures
        unpushed_outcome(false, local, Seq::empty()) == (seq!['P'], unpushed_prefix() + join(local)),
{
}

/// A name is left unpushed only if it is a local branch and no merged list
/// holds it.
pub proof fn lemma_unpushed_members(local: Seq<Seq<char>>, merged: Seq<Seq<Seq<char>>>, name: Seq<char>)
    requires
        unpushed(local, merged).contains(name),
    ensures
        local.contains(name),
        forall|j: int| 0 <= j < merged.len() ==> !(#[trigger] merged[j]).contains(name),
    decreases merged.len(),
{
    if merged.len() > 0 {
        let m = merged.drop_last();
        lemma_without_subset(unpushed(local, m), merged.last(), name);
        lemma_unpushed_members(local, m, name);
        assert forall|j: int| 0 <= j < merged.len() implies !(#[trigger] merged[j]).contains(name) by {
            if j < m.len() {
                assert(merged[j] == m[j]);
            }
        }
    }
}

/// When every local branch is in the merged list of some remote branch,
/// the check finds nothing.
pub proof fn lemma_all_merged(local: Seq<Seq<char>>, merged: Seq<Seq<Seq<char>>>)
    requires
        forall|i: int|
            0 <= i < local.len() ==> exists|j: int| 0 <= j < merged.len() && (#[trigger] merged[j]).contains(#[trigger] local[i]),
    ensures
        unpushed_outcome(false, local, merged) == (Seq::<char>::empty(), Seq::<char>::empty()),
{
    let left = unpushed(local, merged);
    if left.len() > 0 {
        let name = left[0];
        assert(left.contains(name));
        lemma_unpushed_members(local, merged, name);
        let i = choose|i: int| 0 <= i < local.len() && local[i] == name;
        let j = choose|j: int| 0 <= j < merged.len() && (#[trigger] merged[j]).contains(local[i]);
        assert(false);
    }
}

} // verus!
