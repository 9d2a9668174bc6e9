use gitchecker::find::{find_git_repos, git_marker_path, is_excluded_name, DirEntryInfo, FindGitRepos};

fn entry(path: &str, name: &str, git: bool) -> DirEntryInfo {
    DirEntryInfo { path: path.to_string(), folder_name: name.to_string(), has_git_dir: git }
}

fn sample() -> Vec<DirEntryInfo> {
    vec![
        entry("/p/app1", "app1", true),
        entry("/p/notes", "notes", false),
        entry("/p/node_modules", "node_modules", true),
        entry("/p/lib", "lib", true),
        entry("/p/tmp", "tmp", true),
    ]
}

#[test]
fn find_git_repos_new_is_empty() {
    let f = FindGitRepos::new("projects".to_string());
    assert_eq!(f.dir, "projects");
    assert_eq!(f.num_repos, 0);
    assert!(f.repos_found.is_empty());
}

#[test]
fn finds_every_git_directory_without_exclusions() {
    let f = find_git_repos("p".to_string(), &sample(), &None);
    assert_eq!(f.dir, "p");
    assert_eq!(f.num_repos, 4);
    assert_eq!(f.repos_found, vec!["/p/app1", "/p/node_modules", "/p/lib", "/p/tmp"]);
}

#[test]
fn exclusions_skip_exact_folder_names() {
    let exclude = Some(vec!["node_modules".to_string(), "tmp".to_string(), "app".to_string()]);
    let f = find_git_repos("p".to_string(), &sample(), &exclude);
    assert_eq!(f.num_repos, 2);
    assert_eq!(f.repos_found, vec!["/p/app1", "/p/lib"]);
}

#[test]
fn more_exclusions_report_no_more() {
    let few = Some(vec!["tmp".to_string()]);
    let more = Some(vec!["tmp".to_string(), "lib".to_string()]);
    let a = find_git_repos("p".to_string(), &sample(), &few);
    let b = find_git_repos("p".to_string(), &sample(), &more);
    assert!(b.num_repos <= a.num_repos);
    assert_eq!((a.num_repos, b.num_repos), (3, 2));
    let empty = find_git_repos("p".to_string(), &sample(), &Some(vec![]));
    assert_eq!(empty.repos_found, find_git_repos("p".to_string(), &sample(), &None).repos_found);
}

#[test]
fn excluded_name_lookup() {
    let ex = Some(vec!["a".to_string(), "bb".to_string()]);
    assert!(is_excluded_name(&ex, &"bb".to_string()));
    assert!(!is_excluded_name(&ex, &"b".to_string()));
    assert!(!is_excluded_name(&None, &"a".to_string()));
}

#[test]
fn record_adds_one_repository() {
    let mut f = FindGitRepos::new("d".to_string());
    f.record(&entry("/d/x", "x", true), &None);
    f.record(&entry("/d/y", "y", false), &None);
    f.record(&entry("/d/z", "z", true), &Some(vec!["z".to_string()]));
    assert_eq!(f.num_repos, 1);
    assert_eq!(f.repos_found, vec!["/d/x"]);
}

#[test]
fn marker_path_appends_dot_git() {
    assert_eq!(git_marker_path("/home/me/app"), "/home/me/app/.git");
    assert_eq!(git_marker_path(""), "/.git");
}

#[test]
fn one_more_name_removes_exactly_that_folder() {
    let base = find_git_repos("p".to_string(), &sample(), &Some(vec!["tmp".to_string()]));
    let more = find_git_repos(
        "p".to_string(),
        &sample(),
        &Some(vec!["tmp".to_string(), "lib".to_string()]),
    );
    let expected: Vec<String> =
        base.repos_found.iter().filter(|p| p.as_str() != "/p/lib").cloned().collect();
    assert_eq!(more.repos_found, expected);
    let partial = find_git_repos("p".to_string(), &sample(), &Some(vec!["app".to_string()]));
    assert!(partial.repos_found.contains(&"/p/app1".to_string()));
    let other_case = find_git_repos("p".to_string(), &sample(), &Some(vec!["APP1".to_string()]));
    assert!(other_case.repos_found.contains(&"/p/app1".to_string()));
}
