use pathfind::collect::{collect_candidates, WalkEntry};
use pathfind::context::ProjectContext;
use pathfind::ignore::is_ignored_dir;
use pathfind::rank::{rank_scored, Ranker};
use pathfind::resolve::{project_root, RootError};
use pathfind::search::fuzzy_search;
use pathfind::tools::workspace_file;

fn entry(path: &str, is_dir: bool) -> WalkEntry {
    WalkEntry { path: path.to_string(), is_dir }
}

fn strings(v: &[&str]) -> Vec<String> {
    v.iter().map(|s| s.to_string()).collect()
}

#[test]
fn unignored_tree_gives_every_entry() {
    let entries = vec![
        entry("/p", true),
        entry("/p/a", true),
        entry("/p/a/b.txt", false),
        entry("/p/a/c.txt", false),
        entry("/p/readme.md", false),
    ];
    let got = collect_candidates("/p", &entries);
    assert_eq!(got, strings(&["a", "a/b.txt", "a/c.txt", "readme.md"]));
}

#[test]
fn ignored_subtrees_are_left_out_but_siblings_stay() {
    let entries = vec![
        entry("/p", true),
        entry("/p/target", true),
        entry("/p/target/debug", true),
        entry("/p/node_modules", true),
        entry("/p/node_modules/x/index.js", false),
        entry("/p/.git", true),
        entry("/p/.git/HEAD", false),
        entry("/p/.venv", true),
        entry("/p/.venv/bin/python", false),
        entry("/p/src", true),
        entry("/p/src/main.rs", false),
        entry("/p/src/target", false),
        entry("/p/sub/target/out.o", false),
    ];
    let got = collect_candidates("/p", &entries);
    assert_eq!(got, strings(&["src", "src/main.rs", "src/target"]));
}

#[test]
fn root_with_trailing_slash_and_foreign_paths() {
    let entries = vec![entry("/p/", true), entry("/p/a.txt", false), entry("/q/b.txt", false)];
    let got = collect_candidates("/p/", &entries);
    assert_eq!(got, strings(&["a.txt", "/q/b.txt"]));
}

#[test]
fn prefix_that_is_not_a_directory_is_kept_whole() {
    let entries = vec![entry("/pq/a.txt", false)];
    let got = collect_candidates("/p", &entries);
    assert_eq!(got, strings(&["/pq/a.txt"]));
}

#[test]
fn empty_walk_gives_nothing() {
    let got = collect_candidates("/p", &Vec::new());
    assert!(got.is_empty());
}

#[test]
fn ignore_set_applies_to_directories_only() {
    assert!(is_ignored_dir("target", true));
    assert!(is_ignored_dir("node_modules", true));
    assert!(is_ignored_dir(".git", true));
    assert!(is_ignored_dir(".venv", true));
    assert!(!is_ignored_dir("target", false));
    assert!(!is_ignored_dir("src", true));
    assert!(!is_ignored_dir("targets", true));
}

#[test]
fn empty_query_keeps_all_in_order() {
    let mut ranker = Ranker::new();
    let cands = strings(&["z/y.rs", "a.txt", "m/n/o", "a.txt"]);
    assert_eq!(ranker.rank("", &cands), cands);
}

#[test]
fn segment_start_ranks_at_or_above_mid_segment() {
    let mut ranker = Ranker::new();
    let cands = strings(&["abc/src_index.ts", "src/index.ts"]);
    let got = ranker.rank("index", &cands);
    assert_eq!(got.len(), 2);
    assert_eq!(got[0], "src/index.ts");
}

#[test]
fn rank_reorders_and_drops_non_matches() {
    let mut ranker = Ranker::new();
    let cands = strings(&["xx/yb", "qqq", "b"]);
    let got = ranker.rank("b", &cands);
    assert_eq!(got, strings(&["b", "xx/yb"]));
}

#[test]
fn rank_is_case_insensitive() {
    let mut ranker = Ranker::new();
    let cands = strings(&["README.md", "other"]);
    assert_eq!(ranker.rank("readme", &cands), strings(&["README.md"]));
}

#[test]
fn rank_scored_orders_by_score_then_input() {
    let cands = strings(&["a", "b", "c", "d", "e"]);
    let scores = vec![Some(3), None, Some(7), Some(3), Some(9)];
    assert_eq!(rank_scored(&cands, &scores), strings(&["e", "c", "a", "d"]));
}

#[test]
fn rank_scored_empty() {
    assert!(rank_scored(&Vec::new(), &Vec::new()).is_empty());
}

#[test]
fn end_to_end_search_skips_vcs_metadata() {
    let mut ranker = Ranker::new();
    let entries = vec![
        entry("/r", true),
        entry("/r/a", true),
        entry("/r/a/b.txt", false),
        entry("/r/a/c.txt", false),
        entry("/r/.git", true),
        entry("/r/.git/HEAD", false),
    ];
    assert_eq!(fuzzy_search(&mut ranker, "/r", &entries, "b"), strings(&["a/b.txt"]));
    let all = fuzzy_search(&mut ranker, "/r", &entries, "");
    assert_eq!(all, strings(&["a", "a/b.txt", "a/c.txt"]));
}

#[test]
fn unresolved_root_is_unknown() {
    assert_eq!(project_root(&Err(RootError::NoRepository)), "Unknown");
    assert_eq!(project_root(&Err(RootError::NoWorkTree)), "Unknown");
    assert_eq!(project_root(&Err(RootError::NotText)), "Unknown");
    assert_eq!(project_root(&Ok("/home/u/proj/".to_string())), "/home/u/proj/");
}

#[test]
fn set_then_get_returns_root() {
    let mut ctx = ProjectContext::new("Unknown".to_string());
    ctx.set("/work/proj".to_string());
    assert_eq!(ctx.get(), "/work/proj");
    ctx.set("relative/dir".to_string());
    assert_eq!(ctx.get(), "relative/dir");
}

#[test]
fn workspace_file_joins_and_rejects_escapes() {
    assert_eq!(workspace_file("/w", "src/index.ts"), Some("/w/src/index.ts".to_string()));
    assert_eq!(workspace_file("/w", "a/..b/c"), Some("/w/a/..b/c".to_string()));
    assert_eq!(workspace_file("/w", "../etc/passwd"), None);
    assert_eq!(workspace_file("/w", "a/../../x"), None);
    assert_eq!(workspace_file("/w", "a/.."), None);
    assert_eq!(workspace_file("/w", "/etc/passwd"), None);
}
