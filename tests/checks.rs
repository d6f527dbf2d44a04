use git_springclean::branches::{parse_branch_list, BranchQuery, UnpushedResolver};
use git_springclean::checks::{check_unpushed_branches, check_untracked_modified, Args};

fn args() -> Args {
    Args {
        flag_version: false,
        flag_all: false,
        flag_no_untracked: false,
        flag_no_modified: false,
        flag_no_unpushed: false,
        flag_verbose: false,
        arg_path: String::new(),
    }
}

fn names(v: &[&str]) -> Vec<String> {
    v.iter().map(|s| s.to_string()).collect()
}

#[test]
fn parse_marks_checked_out_branch() {
    assert_eq!(parse_branch_list("* main\n  feature\n"), names(&["main", "feature"]));
}

#[test]
fn parse_single_asterisk_with_blanks_and_tabs() {
    assert_eq!(parse_branch_list(" \t* \tmain \t"), names(&["main"]));
    assert_eq!(parse_branch_list("*main"), names(&["main"]));
}

#[test]
fn parse_drops_detached_head_and_empty_lines() {
    let out = "* (HEAD detached at 1a2b3c)\n\n  topic\r\n   \n";
    assert_eq!(parse_branch_list(out), names(&["topic"]));
}

#[test]
fn parse_takes_first_word() {
    let out = "  origin/HEAD -> origin/main\n  origin/main\n";
    assert_eq!(parse_branch_list(out), names(&["origin/HEAD", "origin/main"]));
}

#[test]
fn parse_empty_output() {
    assert_eq!(parse_branch_list(""), Vec::<String>::new());
}

#[test]
fn status_untracked_and_modified() {
    let r = check_untracked_modified(&args(), "?? new.txt\n M src/lib.rs\n");
    assert_eq!(r, ("UM".to_string(), String::new()));
}

#[test]
fn status_only_untracked() {
    let r = check_untracked_modified(&args(), "?? a\n?? b\n");
    assert_eq!(r.0, "U");
}

#[test]
fn status_only_modified() {
    let r = check_untracked_modified(&args(), "A  staged.rs\n M changed.rs\n");
    assert_eq!(r.0, "M");
}

#[test]
fn status_clean() {
    assert_eq!(check_untracked_modified(&args(), "").0, "");
    assert_eq!(check_untracked_modified(&args(), "\n  \n").0, "");
}

#[test]
fn status_suppressed() {
    let mut a = args();
    a.flag_no_untracked = true;
    assert_eq!(check_untracked_modified(&a, "?? a\n M b\n").0, "M");
    a.flag_no_modified = true;
    assert_eq!(check_untracked_modified(&a, "?? a\n M b\n").0, "");
    let mut b = args();
    b.flag_no_modified = true;
    assert_eq!(check_untracked_modified(&b, "?? a\n M b\n").0, "U");
}

#[test]
fn status_leading_whitespace_trimmed() {
    assert_eq!(check_untracked_modified(&args(), "  ?? a\n").0, "U");
}

#[test]
fn unpushed_no_remotes_reports_all() {
    let r = check_unpushed_branches(&args(), names(&["main", "feature"]), vec![], &vec![]);
    assert_eq!(r.0, "P");
    assert_eq!(
        r.1,
        "(P) The following branches were not pushed to any remote: main, feature"
    );
}

#[test]
fn unpushed_all_merged() {
    let r = check_unpushed_branches(
        &args(),
        names(&["main", "feature"]),
        names(&["origin/main", "origin/feature"]),
        &vec![names(&["main"]), names(&["feature", "main"])],
    );
    assert_eq!(r, (String::new(), String::new()));
}

#[test]
fn unpushed_some_left() {
    let r = check_unpushed_branches(
        &args(),
        names(&["main", "feature", "wip"]),
        names(&["origin/main"]),
        &vec![names(&["main"])],
    );
    assert_eq!(r.0, "P");
    assert_eq!(
        r.1,
        "(P) The following branches were not pushed to any remote: feature, wip"
    );
}

#[test]
fn unpushed_suppressed() {
    let mut a = args();
    a.flag_no_unpushed = true;
    let r = check_unpushed_branches(&a, names(&["main"]), vec![], &vec![]);
    assert_eq!(r, (String::new(), String::new()));
}

#[test]
fn unpushed_no_local_branches() {
    let r = check_unpushed_branches(&args(), vec![], names(&["origin/main"]), &vec![vec![]]);
    assert_eq!(r, (String::new(), String::new()));
}

#[test]
fn resolver_asks_in_order_and_stops_early() {
    let mut r = UnpushedResolver::new(&args());
    assert!(matches!(r.next_query(), Some(BranchQuery::LocalBranches)));
    r.answer(names(&["main"]));
    assert!(matches!(r.next_query(), Some(BranchQuery::RemoteBranches)));
    r.answer(names(&["origin/main", "origin/old"]));
    match r.next_query() {
        Some(BranchQuery::MergedInto(b)) => assert_eq!(b, "origin/main"),
        _ => panic!("expected a merged query"),
    }
    r.answer(names(&["main"]));
    assert!(r.next_query().is_none());
    assert_eq!(r.outcome(), (String::new(), String::new()));
}

#[test]
fn resolver_suppressed_asks_nothing() {
    let mut a = args();
    a.flag_no_unpushed = true;
    let r = UnpushedResolver::new(&a);
    assert!(r.next_query().is_none());
}
