use gitraider::func::{find_dirs, find_files, Entry, Scan};
use gitraider::pattern::Pattern;
use gitraider::raider::RepoRaider;

fn dir(name: &str, marked: bool) -> Entry {
    Entry { name: name.to_string(), is_dir: true, is_file: false, marked }
}

fn file(name: &str) -> Entry {
    Entry { name: name.to_string(), is_dir: false, is_file: true, marked: false }
}

/// A small tree below `/work`: two repositories with sources, and a plain directory.
fn listing(path: &str, marker: &str) -> Vec<Entry> {
    let is_repo = |p: &str| marker == ".git" && (p == "/work/gitraider" || p == "/work/other");
    match path {
        "/work" => vec![
            dir("gitraider", is_repo("/work/gitraider") || marker == "src"),
            dir("other", is_repo("/work/other")),
            dir("notes", false),
            file("README"),
        ],
        "/work/gitraider" => vec![dir("src", false), file("Cargo.toml")],
        "/work/gitraider/src" => vec![file("main.rs"), file("lib.rs")],
        "/work/other" => vec![dir("app", false)],
        "/work/other/app" => vec![file("main.rs")],
        "/work/notes" => vec![file("todo.txt")],
        _ => Vec::new(),
    }
}

fn walk(scan: &mut Scan, marker: &str) {
    while let Some(d) = scan.next_dir() {
        let entries = listing(&d, marker);
        scan.visit(&entries);
    }
}

fn found_repos() -> RepoRaider {
    let mut raider = RepoRaider::new("/work".to_string(), false);
    let mut scan = find_dirs("/work", ".git");
    walk(&mut scan, ".git");
    let found = scan.found().clone();
    let opened = vec![true; found.len()];
    raider.find_repos(&found, &opened);
    raider
}

fn match_files_in(raider: &mut RepoRaider, pattern: &str) {
    let pattern = Pattern::new(pattern).ok().unwrap();
    for d in 0..raider.dirs.len() {
        let root = raider.dirs[d].path.clone();
        let mut scan = find_files(&root, &pattern);
        walk(&mut scan, "");
        let found = scan.found().clone();
        raider.match_files(d, &found);
    }
}

fn source_lines(path: &str) -> Vec<Option<String>> {
    if path.ends_with("main.rs") {
        vec![
            Some("use gitraider::raider::RepoRaider;".to_string()),
            Some("fn main() {".to_string()),
            Some("    let raider = RepoRaider::new(path, false);".to_string()),
            Some("}".to_string()),
        ]
    } else {
        Vec::new()
    }
}

#[test]
fn raider_find_dirs() {
    let mut raider = RepoRaider::new("/work".to_string(), false);
    let mut scan = find_dirs("/work", "src");
    walk(&mut scan, "src");
    raider.find_dirs(scan.found());
    assert_ne!(raider.get_dirs().len(), 0);
}

#[test]
fn raider_find_repos() {
    let raider = found_repos();
    assert_ne!(raider.get_dirs().len(), 0);
}

#[test]
fn raider_match_files() {
    let mut raider = found_repos();
    match_files_in(&mut raider, "main.rs");
    assert_ne!(raider.get_pages().len(), 0);

    raider.get_pages().iter().for_each(|page| {
        assert!(page.path.contains("main.rs"));
        assert!(page.relative_path.contains("main.rs"));
    });
}

#[test]
fn raider_match_file_contents() {
    let mut raider = found_repos();
    match_files_in(&mut raider, "main.rs");
    let pattern = Pattern::new("RepoRaider").ok().unwrap();
    for d in 0..raider.dirs.len() {
        for p in 0..raider.dirs[d].pages.len() {
            let lines = source_lines(&raider.dirs[d].pages[p].path.clone());
            raider.match_lines(d, p, &pattern, &lines);
        }
    }

    assert_ne!(raider.get_matches().len(), 0);
    raider.get_matches().iter().for_each(|m| {
        assert!(m.content.contains("RepoRaider"));
    });
}

#[test]
fn repos_are_found_in_walk_order() {
    let raider = found_repos();
    assert_eq!(raider.get_dirs(), vec!["/work/gitraider".to_string(), "/work/other".to_string()]);
    assert_eq!(raider.dirs[0].relative_path, "gitraider");
    assert_eq!(raider.dirs[1].relative_path, "other");
}

#[test]
fn marker_walk_stops_at_hits_and_keeps_depth_first_order() {
    let mut scan = find_dirs("/work", "src");
    assert_eq!(scan.marker(), Some("src"));
    walk(&mut scan, "src");
    assert!(scan.is_done());
    assert_eq!(scan.found(), &vec!["/work/gitraider".to_string()]);
}

#[test]
fn file_walk_reports_files_depth_first() {
    let pattern = Pattern::new(r"\.rs$").ok().unwrap();
    let mut scan = find_files("/work", &pattern);
    assert_eq!(scan.marker(), None);
    walk(&mut scan, "");
    assert_eq!(
        scan.found(),
        &vec![
            "/work/gitraider/src/main.rs".to_string(),
            "/work/gitraider/src/lib.rs".to_string(),
            "/work/other/app/main.rs".to_string(),
        ]
    );
}

#[test]
fn unreadable_directory_is_skipped() {
    let pattern = Pattern::new(r"\.rs$").ok().unwrap();
    let mut scan = find_files("/work", &pattern);
    while let Some(d) = scan.next_dir() {
        let entries = if d == "/work/gitraider" { Vec::new() } else { listing(&d, "") };
        scan.visit(&entries);
    }
    assert_eq!(scan.found(), &vec!["/work/other/app/main.rs".to_string()]);
}

#[test]
fn file_name_discovery_keeps_only_matching_names() {
    let pattern = Pattern::new(r"\.txt$").ok().unwrap();
    let mut scan = find_files("/repo", &pattern);
    let d = scan.next_dir().unwrap();
    assert_eq!(d, "/repo");
    scan.visit(&vec![file("a.txt"), file("b.log")]);
    assert_eq!(scan.next_dir(), None);
    assert_eq!(scan.found(), &vec!["/repo/a.txt".to_string()]);
}

#[test]
fn relative_paths_drop_the_root_and_are_stable() {
    let mut first = found_repos();
    match_files_in(&mut first, "main.rs");
    let mut second = found_repos();
    match_files_in(&mut second, "main.rs");
    let a = first.get_pages();
    let b = second.get_pages();
    assert_eq!(a.len(), 2);
    assert_eq!(a[0].path, "/work/gitraider/src/main.rs");
    assert_eq!(a[0].relative_path, "gitraider/src/main.rs");
    assert_eq!(a[1].relative_path, "other/app/main.rs");
    for (x, y) in a.iter().zip(b.iter()) {
        assert_eq!(x.path, y.path);
        assert_eq!(x.relative_path, y.relative_path);
    }
}

#[test]
fn undecodable_lines_are_skipped_and_reported() {
    let mut raider = RepoRaider::new("/r".to_string(), false);
    raider.find_repos(&vec!["/r/a".to_string()], &vec![true]);
    raider.match_files(0, &vec!["/r/a/f.txt".to_string()]);
    let pattern = Pattern::new("x").ok().unwrap();
    let lines = vec![Some("x1".to_string()), None, Some("y".to_string()), Some("x3".to_string())];
    let skipped = raider.match_lines(0, 0, &pattern, &lines);
    assert_eq!(skipped, vec![1]);
    let lines_found: Vec<usize> = raider.dirs[0].pages[0].matches.iter().map(|m| m.line).collect();
    assert_eq!(lines_found, vec![0, 3]);
    assert_eq!(raider.dirs[0].pages[0].matches[1].page.dir, 0);
    assert_eq!(raider.dirs[0].pages[0].matches[1].page.page, 0);
}

#[test]
fn raider_new() {
    let path = "/work/repos".to_string();
    let raider = RepoRaider::new(path.clone(), true);
    assert_eq!(raider.path, path);
    assert!(raider.dirs.is_empty());
    assert!(raider.dry_run);
    assert!(raider.get_dirs().is_empty());
}

#[test]
fn matching_again_keeps_earlier_matches_in_front() {
    let mut raider = RepoRaider::new("/r".to_string(), false);
    raider.find_repos(&vec!["/r/a".to_string()], &vec![true]);
    raider.match_files(0, &vec!["/r/a/f.txt".to_string()]);
    let pattern = Pattern::new("x").ok().unwrap();
    raider.match_lines(0, 0, &pattern, &vec![Some("x1".to_string()), Some("y".to_string())]);
    raider.match_lines(0, 0, &pattern, &Vec::new());
    assert_eq!(raider.dirs[0].pages[0].matches.len(), 1);
    raider.match_lines(0, 0, &pattern, &vec![Some("x2".to_string())]);
    let contents: Vec<String> = raider.dirs[0].pages[0].matches.iter().map(|m| m.content.clone()).collect();
    assert_eq!(contents, vec!["x1".to_string(), "x2".to_string()]);
}
