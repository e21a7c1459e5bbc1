use rubber_duck::templates::{
    get_builtin_templates, parse_template, ADR_TEMPLATE, PRD_TEMPLATE, SDD_TEMPLATE,
    TEST_PLAN_TEMPLATE,
};

#[test]
fn parse_single_section() {
    let content = r#"
<!-- section: Overview -->
<!-- directive: Write a brief overview. -->
"#;
    let sections = parse_template(content);
    assert_eq!(sections.len(), 1);
    assert_eq!(sections[0].name, "Overview");
    assert_eq!(sections[0].directive, "Write a brief overview.");
}

#[test]
fn parse_multiple_sections() {
    let content = r#"
# PRD
<!-- section: Overview -->
<!-- directive: Write overview. -->

<!-- section: Requirements -->
<!-- directive: List requirements. -->
"#;
    let sections = parse_template(content);
    assert_eq!(sections.len(), 2);
    assert_eq!(sections[0].name, "Overview");
    assert_eq!(sections[1].name, "Requirements");
}

#[test]
fn section_without_directive_is_skipped() {
    let content = r#"
<!-- section: Orphan -->

<!-- section: HasDirective -->
<!-- directive: Write something. -->
"#;
    let sections = parse_template(content);
    assert_eq!(sections.len(), 1);
    assert_eq!(sections[0].name, "HasDirective");
}

#[test]
fn directive_without_section_is_ignored() {
    let content = r#"
<!-- directive: This has no section. -->

<!-- section: Valid -->
<!-- directive: Write something. -->
"#;
    let sections = parse_template(content);
    assert_eq!(sections.len(), 1);
    assert_eq!(sections[0].name, "Valid");
}

#[test]
fn parses_all_builtin_templates() {
    for tmpl in get_builtin_templates() {
        let sections = parse_template(&tmpl.content);
        assert!(!sections.is_empty(), "Template '{}' parsed to 0 sections", tmpl.name);
        for section in &sections {
            assert!(!section.name.is_empty(), "Empty section name in '{}'", tmpl.name);
            assert!(
                !section.directive.is_empty(),
                "Empty directive in '{}' section '{}'",
                tmpl.name,
                section.name
            );
        }
    }
}

#[test]
fn prd_has_five_sections() {
    let sections = parse_template(PRD_TEMPLATE);
    assert_eq!(sections.len(), 5);
    assert_eq!(sections[0].name, "Overview");
    assert_eq!(sections[4].name, "Success Criteria");
}

#[test]
fn sdd_has_six_sections() {
    let sections = parse_template(SDD_TEMPLATE);
    assert_eq!(sections.len(), 6);
    assert_eq!(sections[0].name, "Overview");
    assert_eq!(sections[5].name, "Error Handling");
}

#[test]
fn test_plan_has_five_sections() {
    let sections = parse_template(TEST_PLAN_TEMPLATE);
    assert_eq!(sections.len(), 5);
    assert_eq!(sections[0].name, "Overview");
    assert_eq!(sections[4].name, "Acceptance Criteria");
}

#[test]
fn adr_has_four_sections() {
    let sections = parse_template(ADR_TEMPLATE);
    assert_eq!(sections.len(), 4);
    assert_eq!(sections[0].name, "Context");
    assert_eq!(sections[3].name, "Alternatives Considered");
}

#[test]
fn builtin_templates_are_named_in_order() {
    let names: Vec<String> = get_builtin_templates().into_iter().map(|t| t.name).collect();
    assert_eq!(names, vec!["PRD", "SDD", "Test Plan", "ADR"]);
}

#[test]
fn multi_line_directive_is_joined_with_spaces() {
    let content = "<!-- section: A -->\n<!-- directive:\n  first line\nsecond line  \n-->\n";
    let sections = parse_template(content);
    assert_eq!(sections.len(), 1);
    assert_eq!(sections[0].name, "A");
    assert_eq!(sections[0].directive, "first line second line");
}

#[test]
fn multi_line_directive_closing_on_text_line() {
    let content = "<!-- section: B -->\r\n<!-- directive: start\r\nmiddle\r\nend -->\r\n";
    let sections = parse_template(content);
    assert_eq!(sections.len(), 1);
    assert_eq!(sections[0].directive, "start middle end");
}

#[test]
fn later_directive_replaces_earlier_one() {
    let content = "<!-- section: C -->\n<!-- directive: one -->\n<!-- directive: two -->\n";
    let sections = parse_template(content);
    assert_eq!(sections.len(), 1);
    assert_eq!(sections[0].directive, "two");
}

#[test]
fn parsed_names_and_directives_are_trimmed() {
    let content = "   <!-- section:    Spaced Name    -->  \n\t<!-- directive:   padded   -->\n";
    let sections = parse_template(content);
    assert_eq!(sections.len(), 1);
    assert_eq!(sections[0].name, "Spaced Name");
    assert_eq!(sections[0].directive, "padded");
}

#[test]
fn empty_template_has_no_sections() {
    assert!(parse_template("").is_empty());
}
