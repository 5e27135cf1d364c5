use rust_ai::config::parse_csv;

#[test]
fn test_parse_csv_empty() {
    assert_eq!(parse_csv(Some("")), Vec::<String>::new());
}

#[test]
fn test_parse_csv_single_item() {
    assert_eq!(parse_csv(Some("item1")), vec!["item1"]);
}

#[test]
fn test_parse_csv_multiple_items() {
    assert_eq!(parse_csv(Some("item1,item2,item3")), vec!["item1", "item2", "item3"]);
}

#[test]
fn test_parse_csv_whitespace() {
    assert_eq!(parse_csv(Some(" item1 , item2 , item3 ")), vec!["item1", "item2", "item3"]);
}

#[test]
fn test_parse_csv_empty_items() {
    assert_eq!(parse_csv(Some("item1,,item3")), vec!["item1", "item3"]);
}

#[test]
fn test_parse_csv_none() {
    assert_eq!(parse_csv(None), Vec::<String>::new());
}
