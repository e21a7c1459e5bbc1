use rubber_duck::jira::{
    issue_reference, jira_config_from, jira_error_message, jira_is_configured, normalize_base_url,
    jira_site_from, request_url, CreateIssueRequest, JiraErrorResponse, JiraRequest,
};

#[test]
fn error_message_prefers_body_messages() {
    let body = JiraErrorResponse {
        error_messages: vec!["You do not have the permission".to_string()],
        errors: vec![],
    };
    assert_eq!(jira_error_message(Some(body), 401), "You do not have the permission");
}

#[test]
fn error_message_joins_field_errors() {
    let body = JiraErrorResponse {
        error_messages: vec!["general".to_string()],
        errors: vec![("project".to_string(), "project is required".to_string())],
    };
    assert_eq!(jira_error_message(Some(body), 400), "general; project is required");
}

#[test]
fn error_message_falls_back_to_status() {
    assert_eq!(jira_error_message(None, 401), "Authentication failed — check your credentials");
    assert_eq!(jira_error_message(None, 403), "Permission denied — check your Jira permissions");
    assert_eq!(jira_error_message(None, 404), "Jira site not found — check your base URL");
    assert_eq!(jira_error_message(None, 502), "Jira API error (HTTP 502)");
    let empty = JiraErrorResponse { error_messages: vec![], errors: vec![] };
    assert_eq!(jira_error_message(Some(empty), 500), "Jira API error (HTTP 500)");
}

#[test]
fn base_url_loses_trailing_slashes() {
    assert_eq!(normalize_base_url("https://site.atlassian.net//"), "https://site.atlassian.net");
    assert_eq!(request_url("https://s", JiraRequest::Myself), "https://s/rest/api/2/myself");
    assert_eq!(request_url("https://s", JiraRequest::CreateIssue), "https://s/rest/api/2/issue");
    assert_eq!(request_url("https://s", JiraRequest::Projects), "https://s/rest/api/2/project");
}

#[test]
fn created_issue_reference() {
    let r = issue_reference("https://s", "PROJ-42");
    assert_eq!(r.platform, "jira");
    assert_eq!(r.key, "PROJ-42");
    assert_eq!(r.url, "https://s/browse/PROJ-42");
}

#[test]
fn jira_config_needs_both_values() {
    let c = jira_config_from(Some("u".to_string()), Some("e".to_string())).unwrap();
    assert_eq!((c.base_url.as_str(), c.email.as_str()), ("u", "e"));
    assert!(jira_config_from(Some("u".to_string()), None).is_none());
    assert!(jira_is_configured(&Some("u".into()), &Some("e".into()), &Some("t".into())));
    assert!(!jira_is_configured(&Some("u".into()), &Some("".into()), &Some("t".into())));
    assert!(!jira_is_configured(&None, &Some("e".into()), &Some("t".into())));
}

#[test]
fn create_issue_request_carries_fields() {
    let r = CreateIssueRequest::new("PROJ", "Fix login", "Steps...", "Bug");
    assert_eq!(r.fields.project.key, "PROJ");
    assert_eq!(r.fields.summary, "Fix login");
    assert_eq!(r.fields.description, "Steps...");
    assert_eq!(r.fields.issuetype.name, "Bug");
}

#[test]
fn site_requires_url_then_email() {
    let c = jira_site_from(Some("https://x.atlassian.net".to_string()), Some("a@b.c".to_string()));
    let c = c.ok().unwrap();
    assert_eq!(c.base_url, "https://x.atlassian.net");
    assert_eq!(c.email, "a@b.c");
    let e = jira_site_from(None, None).err().unwrap();
    assert_eq!(e.message(), "Jira base URL not configured");
    let e = jira_site_from(Some("u".to_string()), None).err().unwrap();
    assert_eq!(e.message(), "Jira email not configured");
}
