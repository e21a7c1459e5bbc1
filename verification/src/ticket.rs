//! Kanban tickets: the records, the values a new ticket is stored with, and the
//! columns an update changes.
use vstd::prelude::*;

use crate::pattern::strings_view;
use crate::text::{digit_char, join};

verus! {

/// A ticket as stored.
pub struct Ticket {
    pub id: String,
    pub session_id: String,
    pub title: String,
    pub description: String,
    pub acceptance_criteria: String,
    pub estimate: Option<String>,
    pub priority: String,
    pub ticket_type: String,
    pub labels: Vec<String>,
    pub parent_id: Option<String>,
    pub dependencies: Vec<String>,
    pub status: String,
    pub external_ref: Option<String>,
    pub sort_order: i32,
    pub created_at: String,
}

/// What the user gives to create a ticket; absent fields take defaults.
pub struct CreateTicketParams {
    pub session_id: String,
    pub title: String,
    pub description: Option<String>,
    pub acceptance_criteria: Option<String>,
    pub estimate: Option<String>,
    pub priority: Option<String>,
    pub ticket_type: Option<String>,
    pub labels: Option<Vec<String>>,
}

/// The fields an update changes; absent fields stay as they are.
pub struct UpdateTicketParams {
    pub title: Option<String>,
    pub description: Option<String>,
    pub acceptance_criteria: Option<String>,
    pub estimate: Option<String>,
    pub priority: Option<String>,
    pub ticket_type: Option<String>,
    pub labels: Option<Vec<String>>,
    pub status: Option<String>,
    pub parent_id: Option<String>,
}

/// A ticket's counterpart on an external tracker.
pub struct ExternalRef {
    pub platform: String,
    pub key: String,
    pub url: String,
}

/// A lowercase hexadecimal digit, for `d < 16`.
pub open spec fn hex_digit(d: nat) -> char {
    if d < 10 {
        digit_char(d)
    } else if d == 10 {
        'a'
    } else if d == 11 {
        'b'
    } else if d == 12 {
        'c'
    } else if d == 13 {
        'd'
    } else if d == 14 {
        'e'
    } else {
        'f'
    }
}

/// How JSON writes one character inside a string: quote and backslash
/// escaped, the control characters with a short escape where JSON has one and
/// as `\u00XX` otherwise, every other character as it is.
pub open spec fn json_escaped_char(c: char) -> Seq<char> {
    let u = c as u32;
    if c == '"' {
        seq!['\\', '"']
    } else if c == '\\' {
        seq!['\\', '\\']
    } else if u == 8 {
        seq!['\\', 'b']
    } else if u == 9 {
        seq!['\\', 't']
    } else if u == 10 {
        seq!['\\', 'n']
    } else if u == 12 {
        seq!['\\', 'f']
    } else if u == 13 {
        seq!['\\', 'r']
    } else if u < 0x20 {
        seq!['\\', 'u', '0', '0', hex_digit((u / 16) as nat), hex_digit((u % 16) as nat)]
    } else {
        seq![c]
    }
}

/// A text with each character escaped as JSON writes it inside a string.
pub open spec fn json_escape(s: Seq<char>) -> Seq<char>
    decreases s.len(),
{
    if s.len() == 0 {
        seq![]
    } else {
        json_escape(s.drop_last()) + json_escaped_char(s.last())
    }
}

/// A text as a JSON string: its escaped characters between quotes.
pub open spec fn json_string(s: Seq<char>) -> Seq<char> {
    seq!['"'] + json_escape(s) + seq!['"']
}

/// The JSON text that `serde_json::to_string` writes for a list of strings:
/// the strings, comma-separated without spaces, between brackets.
pub open spec fn json_string_list(items: Seq<Seq<char>>) -> Seq<char> {
    seq!['['] + join(items.map_values(|t: Seq<char>| json_string(t)), seq![',']) + seq![']']
}

/// The list of strings that `serde_json::from_str::<Vec<String>>` reads from
/// `json`, or `None` when `json` is not such a list.
pub uninterp spec fn json_parse_string_list(json: Seq<char>) -> Option<Seq<Seq<char>>>;

/// `serde_json::to_string` on a list of strings. Its documentation names the
/// only failures (a `Serialize` impl that fails, a map with non-string keys),
/// neither of which a list of strings has, so it succeeds. The compact
/// formatter writes `[`, the strings separated by `,`, and `]`; each string
/// goes between quotes with the characters of serde_json's `ESCAPE` table
/// (quote, backslash, controls below 0x20) escaped. `serde_json::from_str`
/// reads the list back from that text.
#[verifier::external_body]
fn to_json_list(items: &Vec<String>) -> (r: Option<String>)
    ensures
        r is Some,
        r matches Some(s) ==> s@ == json_string_list(strings_view(items@))
            && json_parse_string_list(s@) == Some(strings_view(items@)),
{
    serde_json::to_string(items).ok()
}

/// `serde_json::from_str::<Vec<String>>`: the list read, or `None` when the
/// text is not a JSON list of strings.
#[verifier::external_body]
fn from_json_list(json: &str) -> (r: Option<Vec<String>>)
    ensures
        json_parse_string_list(json@) == (match r {
            Some(v) => Some(strings_view(v@)),
            None => None,
        }),
{
    serde_json::from_str::<Vec<String>>(json).ok()
}

/// The stored text of a list of labels: its JSON. Reading the text back gives
/// the same labels.
pub fn labels_to_json(labels: &Vec<String>) -> (r: String)
    ensures
        r@ == json_string_list(strings_view(labels@)),
        labels_from_text(r@) == strings_view(labels@),
{
    match to_json_list(labels) {
        Some(s) => s,
        None => "[]".to_owned(),
    }
}

/// The labels held in stored JSON text, or none when it is not a list of strings.
pub open spec fn labels_from_text(json: Seq<char>) -> Seq<Seq<char>> {
    match json_parse_string_list(json) {
        Some(items) => items,
        None => seq![],
    }
}

/// The list of strings stored as JSON, or an empty list when the text is not one.
pub fn labels_from_json(json: &str) -> (r: Vec<String>)
    ensures
        strings_view(r@) == labels_from_text(json@),
{
    match from_json_list(json) {
        Some(v) => v,
        None => {
            let v: Vec<String> = Vec::new();
            assert(strings_view(v@) =~= Seq::<Seq<char>>::empty());
            v
        },
    }
}

/// The values a new ticket is stored with.
pub struct NewTicketValues {
    pub description: String,
    pub acceptance_criteria: String,
    pub priority: String,
    pub ticket_type: String,
    pub labels_json: String,
}

/// The labels of an optional list (none when absent).
pub open spec fn opt_labels(o: Option<Vec<String>>) -> Seq<Seq<char>> {
    match o {
        Some(l) => strings_view(l@),
        None => seq![],
    }
}

/// `o`'s text, or `default` when absent.
pub open spec fn or_default(o: Option<String>, default: Seq<char>) -> Seq<char> {
    match o {
        Some(s) => s@,
        None => default,
    }
}

fn text_or(o: &Option<String>, default: &str) -> (r: String)
    ensures
        r@ == or_default(*o, default@),
{
    match o {
        Some(s) => s.clone(),
        None => default.to_owned(),
    }
}

/// Defaults for a new ticket: empty description and acceptance criteria,
/// priority `Medium`, type `Task`, and no labels.
pub fn new_ticket_values(params: &CreateTicketParams) -> (r: NewTicketValues)
    ensures
        r.description@ == or_default(params.description, ""@),
        r.acceptance_criteria@ == or_default(params.acceptance_criteria, ""@),
        r.priority@ == or_default(params.priority, "Medium"@),
        r.ticket_type@ == or_default(params.ticket_type, "Task"@),
        r.labels_json@ == json_string_list(opt_labels(params.labels)),
        labels_from_text(r.labels_json@) == opt_labels(params.labels),
{
    let labels_json = match &params.labels {
        Some(l) => labels_to_json(l),
        None => {
            let empty: Vec<String> = Vec::new();
            assert(strings_view(empty@) =~= Seq::<Seq<char>>::empty());
            labels_to_json(&empty)
        },
    };
    NewTicketValues {
        description: text_or(&params.description, ""),
        acceptance_criteria: text_or(&params.acceptance_criteria, ""),
        priority: text_or(&params.priority, "Medium"),
        ticket_type: text_or(&params.ticket_type, "Task"),
        labels_json,
    }
}

/// The column changes an update makes, in column order: each present field
/// with its new value, the labels as the stored text `labels_text`.
pub open spec fn update_columns(p: UpdateTicketParams, labels_text: Seq<char>) -> Seq<
    (Seq<char>, Seq<char>),
> {
    opt_column("title"@, p.title) + opt_column("description"@, p.description) + opt_column(
        "acceptance_criteria"@,
        p.acceptance_criteria,
    ) + opt_column("estimate"@, p.estimate) + opt_column("priority"@, p.priority) + opt_column(
        "ticket_type"@,
        p.ticket_type,
    ) + match p.labels {
        Some(_) => seq![("labels"@, labels_text)],
        None => seq![],
    } + opt_column("status"@, p.status) + opt_column("parent_id"@, p.parent_id)
}

pub open spec fn opt_column(name: Seq<char>, v: Option<String>) -> Seq<(Seq<char>, Seq<char>)> {
    match v {
        Some(s) => seq![(name, s@)],
        None => seq![],
    }
}

pub open spec fn column_views(v: Seq<(&'static str, String)>) -> Seq<(Seq<char>, Seq<char>)> {
    v.map_values(|c: (&'static str, String)| (c.0@, c.1@))
}

fn push_column(cols: &mut Vec<(&'static str, String)>, name: &'static str, v: &Option<String>)
    ensures
        column_views(final(cols)@) == column_views(old(cols)@) + opt_column(name@, *v),
{
    match v {
        Some(s) => {
            let ghost before = cols@;
            cols.push((name, s.clone()));
            assert(column_views(cols@) == column_views(before).push((name@, s@)));
        },
        None => {
            assert(column_views(cols@) == column_views(cols@) + Seq::<(Seq<char>, Seq<char>)>::empty());
        },
    }
}

/// The columns an update sets, with their new values, in the order title,
/// description, acceptance criteria, estimate, priority, type, labels (as
/// JSON), status, parent. Empty when the update changes nothing.
pub fn update_assignments(p: &UpdateTicketParams) -> (r: Vec<(&'static str, String)>)
    ensures
        column_views(r@) == update_columns(
            *p,
            json_string_list(
                match p.labels {
                    Some(l) => strings_view(l@),
                    None => seq![],
                },
            ),
        ),
{
    let mut cols: Vec<(&'static str, String)> = Vec::new();
    assert(column_views(cols@) =~= Seq::<(Seq<char>, Seq<char>)>::empty());
    push_column(&mut cols, "title", &p.title);
    push_column(&mut cols, "description", &p.description);
    push_column(&mut cols, "acceptance_criteria", &p.acceptance_criteria);
    push_column(&mut cols, "estimate", &p.estimate);
    push_column(&mut cols, "priority", &p.priority);
    push_column(&mut cols, "ticket_type", &p.ticket_type);
    let ghost mid = column_views(cols@);
    let labels_text = match &p.labels {
        Some(l) => Some(labels_to_json(l)),
        None => None,
    };
    match &labels_text {
        Some(t) => {
            cols.push(("labels", t.clone()));
            assert(column_views(cols@) == mid.push(("labels"@, t@)));
        },
        None => {},
    }
    let ghost after_labels = column_views(cols@);
    push_column(&mut cols, "status", &p.status);
    push_column(&mut cols, "parent_id", &p.parent_id);
    proof {
        let json = json_string_list(opt_labels(p.labels));
        let lt = match labels_text {
            Some(t) => t@,
            None => json,
        };
        assert(column_views(cols@) =~= update_columns(*p, lt));
    }
    cols
}

} // verus!
