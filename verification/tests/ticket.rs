use rubber_duck::ticket::{
    labels_from_json, labels_to_json, new_ticket_values, update_assignments, CreateTicketParams,
    UpdateTicketParams,
};

fn empty_update() -> UpdateTicketParams {
    UpdateTicketParams {
        title: None,
        description: None,
        acceptance_criteria: None,
        estimate: None,
        priority: None,
        ticket_type: None,
        labels: None,
        status: None,
        parent_id: None,
    }
}

#[test]
fn default_values() {
    let params = CreateTicketParams {
        session_id: "s".to_string(),
        title: "Minimal".to_string(),
        description: None,
        acceptance_criteria: None,
        estimate: None,
        priority: None,
        ticket_type: None,
        labels: None,
    };
    let v = new_ticket_values(&params);
    assert_eq!(v.priority, "Medium");
    assert_eq!(v.ticket_type, "Task");
    assert_eq!(v.description, "");
    assert_eq!(v.acceptance_criteria, "");
    assert_eq!(v.labels_json, "[]");
}

#[test]
fn given_values_are_kept() {
    let params = CreateTicketParams {
        session_id: "s".to_string(),
        title: "Fix login bug".to_string(),
        description: Some("Auth flow is broken".to_string()),
        acceptance_criteria: Some("Login works".to_string()),
        estimate: Some("2h".to_string()),
        priority: Some("High".to_string()),
        ticket_type: Some("Bug".to_string()),
        labels: Some(vec!["auth".to_string(), "urgent".to_string()]),
    };
    let v = new_ticket_values(&params);
    assert_eq!(v.description, "Auth flow is broken");
    assert_eq!(v.priority, "High");
    assert_eq!(v.ticket_type, "Bug");
    assert_eq!(v.labels_json, "[\"auth\",\"urgent\"]");
}

#[test]
fn labels_round_trip_through_json() {
    let labels = vec!["a\"b".to_string(), "c".to_string()];
    let json = labels_to_json(&labels);
    assert_eq!(labels_from_json(&json), labels);
    assert!(labels_from_json("not json").is_empty());
}

#[test]
fn update_lists_changed_columns_in_order() {
    let mut p = empty_update();
    assert!(update_assignments(&p).is_empty());
    p.status = Some("Done".to_string());
    p.title = Some("Renamed".to_string());
    p.labels = Some(vec!["x".to_string()]);
    let cols = update_assignments(&p);
    let names: Vec<&str> = cols.iter().map(|c| c.0).collect();
    assert_eq!(names, vec!["title", "labels", "status"]);
    assert_eq!(cols[1].1, "[\"x\"]");
    assert_eq!(cols[2].1, "Done");
}

#[test]
fn labels_read_back_as_written() {
    let labels = vec!["auth".to_string(), "quote \" and \\ slash".to_string(), "tab\tnew\nline é".to_string()];
    let json = labels_to_json(&labels);
    assert_eq!(labels_from_json(&json), labels);
    assert_eq!(labels_to_json(&Vec::new()), "[]");
}

#[test]
fn labels_json_text_escapes_as_json() {
    let labels = vec!["a\"b".to_string(), "c\\d".to_string(), "t\te\n".to_string(), "\u{1}é/".to_string()];
    assert_eq!(labels_to_json(&labels), "[\"a\\\"b\",\"c\\\\d\",\"t\\te\\n\",\"\\u0001é/\"]");
}
