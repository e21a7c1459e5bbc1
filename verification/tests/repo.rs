use rubber_duck::repo::{extract_repo_name, is_git_url, local_repo_name};

#[test]
fn extract_repo_name_from_https() {
    assert_eq!(extract_repo_name("https://github.com/user/my-repo.git"), "my-repo");
}

#[test]
fn extract_repo_name_from_ssh() {
    assert_eq!(extract_repo_name("git@github.com:user/my-repo.git"), "my-repo");
}

#[test]
fn extract_repo_name_no_git_suffix() {
    assert_eq!(extract_repo_name("https://github.com/user/my-repo"), "my-repo");
}

#[test]
fn extract_repo_name_trailing_slash() {
    assert_eq!(extract_repo_name("https://github.com/user/my-repo/"), "my-repo");
}

#[test]
fn extract_repo_name_strips_repeated_suffixes() {
    assert_eq!(extract_repo_name("https://host/x/repo.git.git//"), "repo");
    assert_eq!(extract_repo_name("plain"), "plain");
}

#[test]
fn is_git_url_detects_urls() {
    assert!(is_git_url("https://github.com/user/repo.git"));
    assert!(is_git_url("git@github.com:user/repo.git"));
    assert!(is_git_url("ssh://git@github.com/user/repo.git"));
    assert!(is_git_url("http://github.com/user/repo.git"));
    assert!(!is_git_url("/Users/nate/code/my-repo"));
    assert!(!is_git_url("~/code/my-repo"));
}

#[test]
fn local_repo_name_is_last_component() {
    assert_eq!(local_repo_name("/home/user/projects/my-app"), "my-app");
    assert_eq!(local_repo_name("/"), "repo");
}
