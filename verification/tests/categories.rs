use lumo_icons::taxonomy::{categories_for, extract_categories};

#[test]
fn mapping_and_sorted_category_set_are_extracted() {
    let doc = "{\"star\":{\"sets\":[\"ui\",\"core\"]},\"plain\":{}}";
    let (mapping, cats) = extract_categories(doc).expect("valid taxonomy");
    assert_eq!(mapping.len(), 1);
    assert_eq!(mapping[0].0, "star");
    assert_eq!(mapping[0].1, vec!["ui".to_string(), "core".to_string()]);
    assert_eq!(
        cats,
        vec![
            "core".to_string(),
            "ui".to_string(),
            "uncategorized".to_string()
        ]
    );
}

#[test]
fn category_set_holds_fallback_even_for_empty_document() {
    let (mapping, cats) = extract_categories("{}").expect("valid taxonomy");
    assert!(mapping.is_empty());
    assert_eq!(cats, vec!["uncategorized".to_string()]);
}

#[test]
fn duplicate_labels_are_stored_once() {
    let doc = "{\"a\":{\"sets\":[\"ui\"]},\"b\":{\"sets\":[\"ui\"]}}";
    let (_, cats) = extract_categories(doc).expect("valid taxonomy");
    assert_eq!(cats, vec!["ui".to_string(), "uncategorized".to_string()]);
}

#[test]
fn non_object_document_is_rejected() {
    assert!(extract_categories("[1, 2, 3]").is_none());
    assert!(extract_categories("\"top\"").is_none());
}

#[test]
fn unparseable_document_is_rejected() {
    assert!(extract_categories("not json at all").is_none());
}

#[test]
fn non_string_set_elements_are_skipped() {
    let doc = "{\"a\":{\"sets\":[\"x\",3,\"y\",null]}}";
    let (mapping, cats) = extract_categories(doc).expect("valid taxonomy");
    assert_eq!(mapping[0].1, vec!["x".to_string(), "y".to_string()]);
    assert_eq!(
        cats,
        vec![
            "uncategorized".to_string(),
            "x".to_string(),
            "y".to_string()
        ]
    );
}

#[test]
fn icon_absent_from_mapping_falls_back_to_uncategorized() {
    let (mapping, _) = extract_categories("{\"star\":{\"sets\":[\"ui\"]}}").expect("valid");
    let cats = categories_for(&mapping, &"other".to_string());
    assert_eq!(cats, vec!["uncategorized".to_string()]);
}

#[test]
fn icon_with_empty_set_list_falls_back_to_uncategorized() {
    let (mapping, _) = extract_categories("{\"star\":{\"sets\":[]}}").expect("valid");
    let cats = categories_for(&mapping, &"star".to_string());
    assert_eq!(cats, vec!["uncategorized".to_string()]);
}

#[test]
fn icon_in_mapping_gets_its_own_categories() {
    let (mapping, _) = extract_categories("{\"star\":{\"sets\":[\"ui\",\"core\"]}}").expect("valid");
    let cats = categories_for(&mapping, &"star".to_string());
    assert_eq!(cats, vec!["ui".to_string(), "core".to_string()]);
}
