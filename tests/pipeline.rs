use gitraider::config::{Config, ConfigError};
use gitraider::paths::{join, strip_base};
use gitraider::pattern::Pattern;
use gitraider::raider::RepoRaider;
use gitraider::steps::{Action, Step};

fn raider_with(lines: &[&str], dry_run: bool) -> RepoRaider {
    let mut raider = RepoRaider::new("/root".to_string(), dry_run);
    raider.find_repos(&vec!["/root/repo".to_string()], &vec![true]);
    raider.match_files(0, &vec!["/root/repo/Cargo.toml".to_string()]);
    raider
        .match_lines(0, 0, &Pattern::new("version").ok().unwrap(), &to_lines(lines));
    raider
}

fn to_lines(lines: &[&str]) -> Vec<Option<String>> {
    lines.iter().map(|l| Some(l.to_string())).collect()
}

fn two_repos(dry_run: bool) -> RepoRaider {
    let mut raider = RepoRaider::new("/root".to_string(), dry_run);
    raider.find_repos(&vec!["/root/a".to_string(), "/root/b".to_string(), "/root/c".to_string()], &vec![true, true, false]);
    raider.match_files(0, &vec!["/root/a/x.txt".to_string()]);
    raider.match_files(1, &vec!["/root/b/sub/y.txt".to_string()]);
    raider.match_files(2, &vec!["/root/c/z.txt".to_string()]);
    let p = Pattern::new("old").ok().unwrap();
    for d in 0..3 {
        raider.match_lines(d, 0, &p, &to_lines(&["old name", "other"]));
    }
    raider.replace(&Pattern::new("old").ok().unwrap(), "new");
    raider
}

fn written(step: Option<Step>) -> String {
    match step.unwrap().action {
        Action::Write { contents, .. } => contents,
        other => panic!("unexpected {:?}", other),
    }
}

#[test]
fn line_match_and_replace() {
    let mut raider = raider_with(&["[package]", "version = \"1.0\"", "edition = \"2021\""], false);
    raider.replace(&Pattern::new(r#""1\.0""#).ok().unwrap(), "\"1.1\"");
    let m = &raider.dirs[0].pages[0].matches;
    assert_eq!(m.len(), 1);
    assert_eq!(m[0].line, 1);
    assert_eq!(m[0].content, "version = \"1.0\"");
    assert_eq!(m[0].replace, Some("version = \"1.1\"".to_string()));

    let file = "[package]\nversion = \"1.0\"\nedition = \"2021\"\n";
    let out = written(raider.apply(0, 0, file));
    assert_eq!(out, "[package]\nversion = \"1.1\"\nedition = \"2021\"\n");
}

#[test]
fn capture_groups_expand_in_the_template() {
    let mut raider = raider_with(&["version = 7"], false);
    raider.replace(&Pattern::new(r"(\d+)").ok().unwrap(), "v$1");
    assert_eq!(raider.dirs[0].pages[0].matches[0].replace, Some("version = v7".to_string()));
}

#[test]
fn no_op_replace_leaves_nothing_to_stage() {
    let mut raider = raider_with(&["version = \"1.0\""], false);
    raider.replace(&Pattern::new("1").ok().unwrap(), "1");
    assert_eq!(raider.dirs[0].pages[0].matches[0].replace, None);
    assert!(!raider.dirs[0].pages[0].has_changes());
    assert!(raider.apply(0, 0, "version = \"1.0\"\n").is_none());
    assert!(raider.stage().is_empty());
    assert!(raider.commit().is_empty());
}

#[test]
fn replacement_is_present_only_when_the_line_changes() {
    let mut raider = raider_with(&["version one", "version two"], false);
    raider.replace(&Pattern::new("one").ok().unwrap(), "1");
    let m = &raider.dirs[0].pages[0].matches;
    assert_eq!(m[0].replace, Some("version 1".to_string()));
    assert_eq!(m[1].replace, None);
}

#[test]
fn second_run_commits_nothing() {
    let mut raider = raider_with(&["version = \"1.0\""], false);
    let select = Pattern::new(r#""1\.0""#).ok().unwrap();
    raider.replace(&select, "\"1.1\"");
    let after = written(raider.apply(0, 0, "version = \"1.0\"\n"));
    assert_eq!(raider.commit().len(), 1);

    let lines: Vec<&str> = after.lines().collect();
    let mut again = raider_with(&lines, false);
    again.replace(&select, "\"1.1\"");
    assert!(again.stage().is_empty());
    assert!(again.commit().is_empty());
}

#[test]
fn duplicate_lines_are_replaced_in_match_order() {
    let mut raider = raider_with(&["version a", "version a"], false);
    raider.replace(&Pattern::new("a").ok().unwrap(), "b");
    let out = written(raider.apply(0, 0, "version a\nversion a\n"));
    assert_eq!(out, "version b\nversion b\n");
}

#[test]
fn stage_uses_paths_inside_the_repository() {
    let raider = two_repos(false);
    let steps = raider.stage();
    let got: Vec<String> = steps.iter().map(|s| format!("{:?}", s.action)).collect();
    assert_eq!(
        got,
        vec![
            "Stage { dir: 0, path: \"x.txt\" }".to_string(),
            "Stage { dir: 1, path: \"sub/y.txt\" }".to_string(),
            "NotRepository { dir: 2 }".to_string(),
        ]
    );
    assert!(steps.iter().all(|s| !s.dry_run));
}

#[test]
fn dry_run_hands_out_the_same_steps_marked() {
    let live = two_repos(false);
    let dry = two_repos(true);
    for (a, b) in [(live.stage(), dry.stage()), (live.commit(), dry.commit())] {
        assert_eq!(a.len(), b.len());
        for (x, y) in a.iter().zip(b.iter()) {
            assert_eq!(format!("{:?}", x.action), format!("{:?}", y.action));
            assert!(!x.dry_run);
            assert!(y.dry_run);
        }
    }
    let w = dry.apply(0, 0, "old name\nother\n").unwrap();
    assert!(w.dry_run);
    let mut dry = dry;
    dry.record_commit(0, false);
    assert!(dry.dirs[0].committed);
}

#[test]
fn failed_commit_does_not_stop_other_repositories() {
    let mut raider = two_repos(false);
    let commits = raider.commit();
    assert_eq!(commits.len(), 3);
    raider.record_commit(0, false);
    raider.record_commit(1, true);
    raider.record_commit(2, true);
    let pushes: Vec<String> = raider.remote_push().iter().map(|s| format!("{:?}", s.action)).collect();
    assert_eq!(pushes, vec!["Push { dir: 1 }".to_string()]);
    assert_eq!(raider.dirs[1].pages[0].matches[0].replace, Some("new name".to_string()));
}

#[test]
fn branch_ambiguity_checks_out_all_and_warns() {
    let mut raider = raider_with(&[], false);
    let branches = vec!["main".to_string(), "release-1".to_string(), "release-2".to_string()];
    let plan = raider.checkout_branch(0, &Pattern::new("^release").ok().unwrap(), &branches);
    assert!(plan.ambiguous);
    let names: Vec<String> = plan
        .steps
        .iter()
        .map(|s| match &s.action {
            Action::Checkout { branch, .. } => branch.clone(),
            other => panic!("unexpected {:?}", other),
        })
        .collect();
    assert_eq!(names, vec!["release-1".to_string(), "release-2".to_string()]);
    for n in names {
        raider.record_checkout(0, n);
    }
    assert_eq!(raider.dirs[0].branch, Some("release-2".to_string()));
}

#[test]
fn single_branch_is_not_ambiguous_and_no_repository_is_reported() {
    let mut raider = RepoRaider::new("/root".to_string(), false);
    raider.find_repos(&vec!["/root/a".to_string(), "/root/b".to_string()], &vec![true, false]);
    let branches = vec!["main".to_string(), "dev".to_string()];
    let p = Pattern::new("main").ok().unwrap();
    let plan = raider.checkout_branch(0, &p, &branches);
    assert!(!plan.ambiguous);
    assert_eq!(plan.steps.len(), 1);
    let plan = raider.checkout_branch(1, &p, &branches);
    assert_eq!(format!("{:?}", plan.steps[0].action), "NotRepository { dir: 1 }");
}

#[test]
fn invalid_pattern_is_refused() {
    match Pattern::new("foo(bar") {
        Err(e) => assert_eq!(e.pattern, "foo(bar"),
        Ok(_) => panic!("pattern accepted"),
    }
    let p = Pattern::new("a+").ok().unwrap();
    assert_eq!(p.as_str(), "a+");
    assert!(p.is_match("baaa"));
    assert!(!p.is_match("bbb"));
    assert_eq!(p.replace_first("baab aa", "x"), "bxb aa");
}

fn config() -> Config {
    Config {
        path: "../repos".to_string(),
        branch_pattern: ".*".to_string(),
        file_pattern: None,
        line_pattern: None,
        line_select_pattern: None,
        line_replace_pattern: None,
        commit: None,
        push: false,
        username: None,
        password: None,
        dry_run: false,
        assess: false,
    }
}

#[test]
fn config_errors_are_found_before_the_run() {
    assert_eq!(config().validate(), Ok(()));
    let mut c = config();
    c.line_select_pattern = Some("a".to_string());
    assert_eq!(c.validate(), Err(ConfigError::SelectWithoutReplace));
    c.line_replace_pattern = Some("b".to_string());
    assert_eq!(c.validate(), Ok(()));
    let mut c = config();
    c.line_replace_pattern = Some("b".to_string());
    assert_eq!(c.validate(), Err(ConfigError::ReplaceWithoutSelect));
    let mut c = config();
    c.push = true;
    assert_eq!(c.validate(), Err(ConfigError::PushWithoutUsername));
    c.username = Some("me".to_string());
    assert_eq!(c.validate(), Ok(()));
}

#[test]
fn paths_join_and_strip() {
    assert_eq!(join("/a", "b"), "/a/b");
    assert_eq!(join("/", "b"), "/b");
    assert_eq!(strip_base("/a", "/a/b/c"), Some("b/c".to_string()));
    assert_eq!(strip_base("/a/b", "/a/bc"), None);
    assert_eq!(strip_base("/", "/x"), Some("x".to_string()));
}
