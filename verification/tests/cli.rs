use httpee::cli::parse_key_value;

#[test]
fn parse_key_value_splits_at_first_equals() {
    assert_eq!(
        parse_key_value("name=Bob"),
        Ok(("name".to_string(), "Bob".to_string()))
    );
    assert_eq!(
        parse_key_value("q=a=b"),
        Ok(("q".to_string(), "a=b".to_string()))
    );
    assert_eq!(parse_key_value("=x"), Ok((String::new(), "x".to_string())));
    assert_eq!(parse_key_value("k="), Ok(("k".to_string(), String::new())));
}

#[test]
fn parse_key_value_without_equals_errors() {
    assert_eq!(
        parse_key_value("name"),
        Err("invalid KEY=VALUE: no '=' found in 'name'".to_string())
    );
}
