//! Jira integration: the records exchanged with the Jira REST API and the
//! decisions made around the HTTP calls (addresses, error messages, settings).
use vstd::prelude::*;

use crate::text::{
    chars_of, decimal, join, join_chars, push_decimal, push_str, string_from_chars,
    trim_end_char, trim_end_char_chars,
};
use crate::ticket::ExternalRef;

verus! {

/// How requests to Jira authenticate: e-mail and API token (Jira Cloud) or a
/// personal access token (Jira Server / Data Center).
pub enum JiraAuth {
    Basic { email: String, api_token: String },
    Pat(String),
}

/// Body of a create-issue request.
pub struct CreateIssueRequest {
    pub fields: CreateIssueFields,
}

impl CreateIssueRequest {
    /// The request that creates an issue of type `issue_type` in the project
    /// with key `project_key`.
    pub fn new(project_key: &str, summary: &str, description: &str, issue_type: &str) -> (r: Self)
        ensures
            r.fields.project.key@ == project_key@,
            r.fields.summary@ == summary@,
            r.fields.description@ == description@,
            r.fields.issuetype.name@ == issue_type@,
    {
        CreateIssueRequest {
            fields: CreateIssueFields {
                project: ProjectRef { key: project_key.to_string() },
                summary: summary.to_string(),
                description: description.to_string(),
                issuetype: IssueTypeRef { name: issue_type.to_string() },
            },
        }
    }
}

pub struct CreateIssueFields {
    pub project: ProjectRef,
    pub summary: String,
    pub description: String,
    pub issuetype: IssueTypeRef,
}

pub struct ProjectRef {
    pub key: String,
}

pub struct IssueTypeRef {
    pub name: String,
}

/// The user that the credentials belong to.
pub struct JiraUser {
    pub account_id: Option<String>,
    pub display_name: String,
    pub name: Option<String>,
}

/// Reply to a create-issue request.
pub struct CreateIssueResponse {
    pub id: String,
    pub key: String,
}

/// Error body of the Jira REST API: general messages, and one message per
/// offending field (as `(field, message)` pairs, in the order they were read).
pub struct JiraErrorResponse {
    pub error_messages: Vec<String>,
    pub errors: Vec<(String, String)>,
}

/// A Jira project.
pub struct JiraProject {
    pub key: String,
    pub name: String,
}

/// An issue referenced in a conversation, as given to the language model.
pub struct JiraIssueContext {
    pub key: String,
    pub summary: String,
    pub status: String,
    pub issue_type: String,
    pub priority: String,
    pub description: String,
}

/// Where the Jira site is and who signs in.
pub struct JiraConfig {
    pub base_url: String,
    pub email: String,
}

/// A request to build for the Jira REST API.
pub enum JiraRequest {
    Myself,
    CreateIssue,
    Projects,
}

/// The messages of an error body: the general ones, then the per-field ones.
pub open spec fn error_body_messages(e: JiraErrorResponse) -> Seq<Seq<char>> {
    e.error_messages@.map_values(|s: String| s@) + e.errors@.map_values(
        |p: (String, String)| p.1@,
    )
}

/// The message shown when Jira has not said what went wrong.
pub open spec fn status_message(status: u16) -> Seq<char> {
    if status == 401 {
        "Authentication failed — check your credentials"@
    } else if status == 403 {
        "Permission denied — check your Jira permissions"@
    } else if status == 404 {
        "Jira site not found — check your base URL"@
    } else {
        "Jira API error (HTTP "@ + decimal(status as nat) + ")"@
    }
}

/// The error message for a failed Jira request: the messages of the error body
/// joined by `; ` when the body parsed and holds any, otherwise a message for
/// the HTTP status.
pub open spec fn jira_error_text(body: Option<JiraErrorResponse>, status: u16) -> Seq<char> {
    match body {
        Some(e) => if error_body_messages(e).len() > 0 {
            join(error_body_messages(e), "; "@)
        } else {
            status_message(status)
        },
        None => status_message(status),
    }
}

/// The message for a failed Jira request, given the error body when it parsed.
pub fn jira_error_message(body: Option<JiraErrorResponse>, status: u16) -> (r: String)
    ensures
        r@ == jira_error_text(body, status),
{
    if let Some(e) = &body {
        let ghost all = error_body_messages(*e);
        let mut msgs: Vec<Vec<char>> = Vec::new();
        let mut i: usize = 0;
        assert(msgs@.map_values(|x: Vec<char>| x@) =~= Seq::<Seq<char>>::empty());
        while i < e.error_messages.len()
            invariant
                i <= e.error_messages@.len(),
                msgs@.map_values(|x: Vec<char>| x@) == e.error_messages@.map_values(
                    |s: String| s@,
                ).take(i as int),
            decreases e.error_messages.len() - i,
        {
            let ghost mb = msgs@;
            msgs.push(chars_of(e.error_messages[i].as_str()));
            assert(msgs@.map_values(|x: Vec<char>| x@) == mb.map_values(|x: Vec<char>| x@).push(
                e.error_messages@[i as int]@,
            ));
            i += 1;
            assert(e.error_messages@.map_values(|s: String| s@).take(i as int) == e.error_messages@.map_values(
                |s: String| s@,
            ).take(i - 1).push(e.error_messages@[i - 1]@));
        }
        assert(e.error_messages@.map_values(|s: String| s@).take(i as int) == e.error_messages@.map_values(
            |s: String| s@,
        ));
        let ghost first = msgs@.map_values(|x: Vec<char>| x@);
        let mut j: usize = 0;
        while j < e.errors.len()
            invariant
                j <= e.errors@.len(),
                msgs@.map_values(|x: Vec<char>| x@) == first + e.errors@.map_values(
                    |p: (String, String)| p.1@,
                ).take(j as int),
            decreases e.errors.len() - j,
        {
            let ghost mb = msgs@;
            msgs.push(chars_of(e.errors[j].1.as_str()));
            assert(msgs@.map_values(|x: Vec<char>| x@) == mb.map_values(|x: Vec<char>| x@).push(
                e.errors@[j as int].1@,
            ));
            j += 1;
            assert(e.errors@.map_values(|p: (String, String)| p.1@).take(j as int) == e.errors@.map_values(
                |p: (String, String)| p.1@,
            ).take(j - 1).push(e.errors@[j - 1].1@));
        }
        assert(e.errors@.map_values(|p: (String, String)| p.1@).take(j as int) == e.errors@.map_values(
            |p: (String, String)| p.1@,
        ));
        assert(msgs@.map_values(|x: Vec<char>| x@) == all);
        if msgs.len() > 0 {
            let sep = chars_of("; ");
            let joined = join_chars(&msgs, &sep);
            return string_from_chars(&joined);
        }
    }
    status_text(status)
}

fn status_text(status: u16) -> (r: String)
    ensures
        r@ == status_message(status),
{
    if status == 401 {
        "Authentication failed — check your credentials".to_owned()
    } else if status == 403 {
        "Permission denied — check your Jira permissions".to_owned()
    } else if status == 404 {
        "Jira site not found — check your base URL".to_owned()
    } else {
        let mut v: Vec<char> = Vec::new();
        push_str(&mut v, "Jira API error (HTTP ");
        push_decimal(&mut v, status as usize);
        push_str(&mut v, ")");
        string_from_chars(&v)
    }
}

/// A base URL without trailing slashes.
pub fn normalize_base_url(base_url: &str) -> (r: String)
    ensures
        r@ == trim_end_char(base_url@, '/'),
{
    let v = chars_of(base_url);
    let t = trim_end_char_chars(&v, '/');
    string_from_chars(&t)
}

/// The path of a Jira REST request.
pub open spec fn request_path(req: JiraRequest) -> Seq<char> {
    match req {
        JiraRequest::Myself => "/rest/api/2/myself"@,
        JiraRequest::CreateIssue => "/rest/api/2/issue"@,
        JiraRequest::Projects => "/rest/api/2/project"@,
    }
}

/// The address of a Jira REST request on the site at `base_url` (already normalized).
pub fn request_url(base_url: &str, req: JiraRequest) -> (r: String)
    ensures
        r@ == base_url@ + request_path(req),
{
    let mut v = chars_of(base_url);
    match req {
        JiraRequest::Myself => push_str(&mut v, "/rest/api/2/myself"),
        JiraRequest::CreateIssue => push_str(&mut v, "/rest/api/2/issue"),
        JiraRequest::Projects => push_str(&mut v, "/rest/api/2/project"),
    }
    string_from_chars(&v)
}

/// The reference to an issue created on the Jira site at `base_url`: platform
/// `jira`, the issue key, and its browse address `{base_url}/browse/{key}`.
pub fn issue_reference(base_url: &str, key: &str) -> (r: ExternalRef)
    ensures
        r.platform@ == "jira"@,
        r.key@ == key@,
        r.url@ == base_url@ + "/browse/"@ + key@,
{
    let mut v = chars_of(base_url);
    push_str(&mut v, "/browse/");
    push_str(&mut v, key);
    ExternalRef { platform: "jira".to_owned(), key: key.to_owned(), url: string_from_chars(&v) }
}

/// The Jira settings when both the base URL and the e-mail are stored.
pub fn jira_config_from(base_url: Option<String>, email: Option<String>) -> (r: Option<
    JiraConfig,
>)
    ensures
        match (base_url, email) {
            (Some(b), Some(e)) => r matches Some(c) && c.base_url == b && c.email == e,
            _ => r is None,
        },
{
    match (base_url, email) {
        (Some(base_url), Some(email)) => Some(JiraConfig { base_url, email }),
        _ => None,
    }
}

/// Whether Jira is fully set up: a non-empty base URL, e-mail and API token.
pub fn jira_is_configured(
    base_url: &Option<String>,
    email: &Option<String>,
    token: &Option<String>,
) -> (r: bool)
    ensures
        r == ((base_url matches Some(b) && b@.len() > 0) && (email matches Some(e) && e@.len()
            > 0) && (token matches Some(t) && t@.len() > 0)),
{
    let has_url = match base_url {
        Some(b) => !b.as_str().is_empty(),
        None => false,
    };
    let has_email = match email {
        Some(e) => !e.as_str().is_empty(),
        None => false,
    };
    let has_token = match token {
        Some(t) => !t.as_str().is_empty(),
        None => false,
    };
    has_url && has_email && has_token
}

/// Why the stored Jira settings cannot be used.
pub enum CredentialsError {
    MissingBaseUrl,
    MissingEmail,
}

impl CredentialsError {
    /// The message reported for the error.
    pub fn message(&self) -> (m: &'static str)
        ensures
            m@ == (match self {
                CredentialsError::MissingBaseUrl => "Jira base URL not configured"@,
                CredentialsError::MissingEmail => "Jira email not configured"@,
            }),
    {
        match self {
            CredentialsError::MissingBaseUrl => "Jira base URL not configured",
            CredentialsError::MissingEmail => "Jira email not configured",
        }
    }
}

/// The stored site and e-mail for connecting to Jira: both are required, the
/// base URL checked first.
pub fn jira_site_from(base_url: Option<String>, email: Option<String>) -> (r: Result<
    JiraConfig,
    CredentialsError,
>)
    ensures
        match r {
            Ok(c) => base_url == Some(c.base_url) && email == Some(c.email),
            Err(CredentialsError::MissingBaseUrl) => base_url is None,
            Err(CredentialsError::MissingEmail) => base_url is Some && email is None,
        },
{
    let base_url = match base_url {
        Some(b) => b,
        None => return Err(CredentialsError::MissingBaseUrl),
    };
    match email {
        Some(email) => Ok(JiraConfig { base_url, email }),
        None => Err(CredentialsError::MissingEmail),
    }
}

} // verus!
