use msr_commit_viewer::database::CommitRecord;
use msr_commit_viewer::remote::{
    diff_text, message_text, parse_origin, plan_fetch, provider_for_host, OriginError, Provider,
};

fn parts(origin: &str) -> Option<(String, String)> {
    parse_origin(origin).map(|p| (p.host, p.path))
}

#[test]
fn origin_shapes() {
    assert_eq!(parts("https://github.com/owner/repo"), Some(("github.com".to_string(), "owner/repo".to_string())));
    assert_eq!(parts("https://github.com/owner/repo.git"), Some(("github.com".to_string(), "owner/repo".to_string())));
    assert_eq!(parts("https://gitlab.com/group/sub/project"), Some(("gitlab.com".to_string(), "group/sub/project".to_string())));
    assert_eq!(parts("https://example.org/.git"), Some(("example.org".to_string(), ".git".to_string())));
    assert_eq!(parts("http://github.com/owner/repo"), None);
    assert_eq!(parts("https://github.com"), None);
    assert_eq!(parts("https://github.com/"), None);
    assert_eq!(parts("https:///owner/repo"), None);
    assert_eq!(parts(""), None);
}

#[test]
fn hosts() {
    assert_eq!(provider_for_host(&"github.com".to_string()), Some(Provider::GitHub));
    assert_eq!(provider_for_host(&"gitlab.com".to_string()), Some(Provider::GitLab));
    assert_eq!(provider_for_host(&"bitbucket.org".to_string()), None);
}

#[test]
fn github_requests() {
    let c = CommitRecord::new("https://github.com/owner/repo.git".to_string(), "abc123".to_string());
    let r = plan_fetch(&c, "ghtoken", "gltoken").unwrap();
    assert_eq!(r.message_url, "https://api.github.com/repos/owner/repo/git/commits/abc123");
    assert_eq!(r.diff_url, "https://github.com/owner/repo/commit/abc123.diff");
    assert_eq!(r.auth_header, "Authorization");
    assert_eq!(r.auth_value, "token ghtoken");
}

#[test]
fn gitlab_requests_encode_the_path() {
    let c = CommitRecord::new("https://gitlab.com/group/my-project".to_string(), "def456".to_string());
    let r = plan_fetch(&c, "ghtoken", "gltoken").unwrap();
    assert_eq!(r.message_url, "https://gitlab.com/api/v4/projects/group%2Fmy%2Dproject/repository/commits/def456");
    assert_eq!(r.diff_url, "https://gitlab.com/group/my-project/-/commit/def456.diff");
    assert_eq!(r.auth_header, "PRIVATE-TOKEN");
    assert_eq!(r.auth_value, "gltoken");
}

#[test]
fn gitlab_non_ascii_path_is_encoded_bytewise() {
    let c = CommitRecord::new("https://gitlab.com/gr\u{fc}ppe/p".to_string(), "h".to_string());
    let r = plan_fetch(&c, "a", "b").unwrap();
    assert_eq!(r.message_url, "https://gitlab.com/api/v4/projects/gr%C3%BCppe%2Fp/repository/commits/h");
}

#[test]
fn origin_errors() {
    let c = CommitRecord::new("git@github.com:owner/repo.git".to_string(), "h".to_string());
    assert_eq!(plan_fetch(&c, "a", "b").err(), Some(OriginError::Malformed));
    let c = CommitRecord::new("https://bitbucket.org/owner/repo".to_string(), "h".to_string());
    assert_eq!(plan_fetch(&c, "a", "b").err(), Some(OriginError::UnsupportedHost("bitbucket.org".to_string())));
}

#[test]
fn fetched_texts() {
    assert_eq!(message_text(Ok(Some("Fix typo".to_string()))), "Fix typo");
    assert_eq!(message_text(Ok(None)), "!! Commit message not available !!");
    assert_eq!(message_text(Err("404 Not Found".to_string())), "404 Not Found");
    assert_eq!(diff_text(Ok("diff --git".to_string())), "diff --git");
    assert_eq!(diff_text(Err("timeout".to_string())), "timeout");
}
