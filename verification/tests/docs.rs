use rubber_duck::docs::{keeps_version, section_fields, SectionError};

#[test]
fn section_fields_default_sort_order_to_position() {
    let s = section_fields(Some("Overview".to_string()), Some("Describe it".to_string()), None, 3)
        .ok()
        .unwrap();
    assert_eq!(s.name, "Overview");
    assert_eq!(s.directive, "Describe it");
    assert_eq!(s.sort_order, 3);
}

#[test]
fn section_fields_keep_given_sort_order_in_32_bits() {
    let s = section_fields(Some("a".to_string()), Some("b".to_string()), Some(7), 0).ok().unwrap();
    assert_eq!(s.sort_order, 7);
    let s = section_fields(Some("a".to_string()), Some("b".to_string()), Some(1 << 32 | 5), 0)
        .ok()
        .unwrap();
    assert_eq!(s.sort_order, 5);
}

#[test]
fn missing_fields_are_errors() {
    let e = section_fields(None, None, None, 0);
    assert!(matches!(e, Err(SectionError::MissingName)));
    let e = section_fields(Some("a".to_string()), None, None, 0);
    assert!(matches!(e, Err(SectionError::MissingDirective)));
    assert_eq!(SectionError::MissingName.message(), "section missing name");
    assert_eq!(SectionError::MissingDirective.message(), "section missing directive");
}

#[test]
fn keeps_only_nonempty_versions() {
    assert!(!keeps_version(""));
    assert!(keeps_version("old text"));
}
