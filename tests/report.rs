use git_springclean::branches::parse_branch_list;
use git_springclean::checks::{check_unpushed_branches, check_untracked_modified, Args, CheckResult};
use git_springclean::report::{error_line, summarize, summary_line};
use git_springclean::walker::RepoWalker;

fn args() -> Args {
    Args {
        flag_version: false,
        flag_all: false,
        flag_no_untracked: false,
        flag_no_modified: false,
        flag_no_unpushed: false,
        flag_verbose: false,
        arg_path: String::new(),
    }
}

fn run_checks(a: &Args, status: &str, local: &str) -> Vec<CheckResult> {
    let st = check_untracked_modified(a, status);
    let br = check_unpushed_branches(a, parse_branch_list(local), vec![], &vec![]);
    vec![Ok(st), Ok(br)]
}

#[test]
fn end_to_end_untracked_and_unpushed() {
    let a = args();
    let rep = summarize(a.flag_all, &run_checks(&a, "?? notes.txt\n", "* main\n  feature\n"));
    assert_eq!(rep.summary, "UP");
    assert!(rep.shown);
    assert!(!rep.clean);
    assert_eq!(
        rep.details,
        vec!["(P) The following branches were not pushed to any remote: main, feature".to_string()]
    );
    assert!(rep.errors.is_empty());
}

#[test]
fn end_to_end_no_unpushed() {
    let mut a = args();
    a.flag_no_unpushed = true;
    let rep = summarize(a.flag_all, &run_checks(&a, "?? notes.txt\n", "* main\n  feature\n"));
    assert_eq!(rep.summary, "U");
}

#[test]
fn end_to_end_all_suppressed_is_clean() {
    let mut a = args();
    a.flag_no_untracked = true;
    a.flag_no_unpushed = true;
    let rep = summarize(a.flag_all, &run_checks(&a, "?? notes.txt\n", "* main\n  feature\n"));
    assert_eq!(rep.summary, "");
    assert!(rep.clean);
    assert!(!rep.shown);
    a.flag_all = true;
    let rep = summarize(a.flag_all, &run_checks(&a, "?? notes.txt\n", "* main\n  feature\n"));
    assert!(rep.shown);
    assert!(rep.clean);
}

#[test]
fn failed_status_query_marks_error() {
    let results: Vec<CheckResult> = vec![
        Err("fatal: not a git repository".to_string()),
        Ok((String::new(), String::new())),
    ];
    let rep = summarize(false, &results);
    assert_eq!(rep.summary, "E");
    assert!(rep.summary.ends_with('E'));
    assert_eq!(rep.errors, vec!["fatal: not a git repository".to_string()]);
    assert!(!rep.clean);
    assert!(rep.shown);
    assert_eq!(error_line(0, &rep.errors[0]), "[Error0]:fatal: not a git repository");
}

#[test]
fn error_lines_are_numbered() {
    assert_eq!(error_line(1, "boom"), "[Error1]:boom");
    assert_eq!(error_line(12, ""), "[Error12]:");
    assert_eq!(error_line(305, "x"), "[Error305]:x");
}

#[test]
fn error_after_codes() {
    let results: Vec<CheckResult> = vec![Ok(("UM".to_string(), String::new())), Err("x".to_string())];
    assert_eq!(summarize(false, &results).summary, "UME");
}

#[test]
fn same_results_same_summary() {
    let a = args();
    let first = summarize(false, &run_checks(&a, " M a\n?? b\n", "* main\n"));
    let second = summarize(false, &run_checks(&a, " M a\n?? b\n", "* main\n"));
    assert_eq!(first.summary, second.summary);
    assert_eq!(first.summary, "UMP");
}

#[test]
fn listing_line_pads_summary() {
    assert_eq!(summary_line("UP", "/src/repo"), "UP   /src/repo");
    assert_eq!(summary_line("", "r"), "     r");
    assert_eq!(summary_line("UMPE", "r"), "UMPE r");
}

struct Dir {
    path: &'static str,
    meta: bool,
    subdirs: Vec<&'static str>,
}

fn walk(tree: &[Dir], root: &str, clean: impl Fn(&str) -> bool) -> (u64, Vec<String>) {
    let mut w = RepoWalker::new(root.to_string());
    let mut repos = Vec::new();
    while let Some(d) = w.next_dir() {
        let node = tree.iter().find(|n| n.path == d).unwrap();
        if node.meta {
            repos.push(d.clone());
            w.record_repo(clean(&d));
        } else {
            w.record_subdirs(node.subdirs.iter().map(|s| s.to_string()).collect());
        }
    }
    (w.failing, repos)
}

#[test]
fn walker_finds_two_roots_and_stops_at_them() {
    let tree = vec![
        Dir { path: "root", meta: false, subdirs: vec!["root/a", "root/b"] },
        Dir { path: "root/a", meta: true, subdirs: vec!["root/a/inner"] },
        Dir { path: "root/b", meta: false, subdirs: vec!["root/b/c"] },
        Dir { path: "root/b/c", meta: true, subdirs: vec![] },
    ];
    let (failing, repos) = walk(&tree, "root", |_| false);
    assert_eq!(repos, vec!["root/a".to_string(), "root/b/c".to_string()]);
    assert_eq!(failing, 2);
    let (failing, _) = walk(&tree, "root", |p| p == "root/a");
    assert_eq!(failing, 1);
}

#[test]
fn walker_root_is_repository() {
    let tree = vec![Dir { path: "r", meta: true, subdirs: vec!["r/x"] }];
    let (failing, repos) = walk(&tree, "r", |_| true);
    assert_eq!(failing, 0);
    assert_eq!(repos, vec!["r".to_string()]);
}
