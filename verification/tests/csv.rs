use proxynexus_core::csv_parser::{cards_from_records, parse_csv, CsvError};

#[test]
fn test_parse_csv_valid() {
    let mut text = String::new();
    text.push_str("code,title,set_code,set_name,release_date,side,quantity\n");
    text.push_str("01001,Noise: Hacker Extraordinaire,core,Core Set,2012-09-06,runner,1\n");
    text.push_str("01002,Déjà Vu,core,Core Set,2012-09-06,runner,2\n");

    let cards = parse_csv(text.as_bytes()).unwrap();
    assert_eq!(cards.len(), 2);

    assert_eq!(cards[0].code, "01001");
    assert_eq!(cards[0].title, "Noise: Hacker Extraordinaire");
    assert_eq!(cards[0].set_code, "core");
    assert_eq!(cards[0].set_name, "Core Set");
    assert_eq!(cards[0].release_date, Some("2012-09-06".to_string()));
    assert_eq!(cards[0].side, "runner");
    assert_eq!(cards[0].quantity, 1);

    assert_eq!(cards[1].code, "01002");
    assert_eq!(cards[1].title, "Déjà Vu");
    assert_eq!(cards[1].quantity, 2);
}

#[test]
fn columns_are_found_by_name_in_any_order() {
    let text = "quantity,side,set_name,set_code,title,code\n+3,corp,Core Set,core,Hedge Fund,01110\n";
    let cards = parse_csv(text.as_bytes()).unwrap();
    assert_eq!(cards.len(), 1);
    assert_eq!(cards[0].code, "01110");
    assert_eq!(cards[0].title, "Hedge Fund");
    assert_eq!(cards[0].side, "corp");
    assert_eq!(cards[0].quantity, 3);
    assert_eq!(cards[0].release_date, None);
}

#[test]
fn an_empty_release_date_is_absent() {
    let text = "code,title,set_code,set_name,release_date,side,quantity\n01001,Noise,core,Core Set,,runner,1\n";
    let cards = parse_csv(text.as_bytes()).unwrap();
    assert_eq!(cards[0].release_date, None);
}

#[test]
fn a_header_only_document_has_no_cards() {
    let text = "code,title,set_code,set_name,side,quantity\n";
    let cards = parse_csv(text.as_bytes()).unwrap();
    assert!(cards.is_empty());
}

#[test]
fn a_missing_column_names_the_field_and_the_row() {
    let text = "code,title,set_code,set_name,quantity\n01001,Noise,core,Core Set,1\n";
    match parse_csv(text.as_bytes()) {
        Err(CsvError::MissingField { row, field }) => {
            assert_eq!(row, 2);
            assert_eq!(field, "side");
        }
        other => panic!("unexpected result {:?}", other),
    }
}

#[test]
fn a_bad_quantity_is_reported_with_its_text() {
    let text = "code,title,set_code,set_name,side,quantity\n01001,Noise,core,Core Set,runner,1\n01002,Deja Vu,core,Core Set,runner,two\n";
    match parse_csv(text.as_bytes()) {
        Err(CsvError::InvalidQuantity { row, value }) => {
            assert_eq!(row, 3);
            assert_eq!(value, "two");
        }
        other => panic!("unexpected result {:?}", other),
    }
}

#[test]
fn a_negative_or_oversized_quantity_is_invalid() {
    let text = "code,title,set_code,set_name,side,quantity\n01001,Noise,core,Core Set,runner,-1\n";
    assert!(matches!(parse_csv(text.as_bytes()), Err(CsvError::InvalidQuantity { .. })));
    let text = "code,title,set_code,set_name,side,quantity\n01001,Noise,core,Core Set,runner,4294967296\n";
    assert!(matches!(parse_csv(text.as_bytes()), Err(CsvError::InvalidQuantity { .. })));
    let text = "code,title,set_code,set_name,side,quantity\n01001,Noise,core,Core Set,runner,4294967295\n";
    assert_eq!(parse_csv(text.as_bytes()).unwrap()[0].quantity, 4294967295);
}

#[test]
fn a_row_of_the_wrong_length_is_a_csv_error() {
    let text = "code,title,set_code,set_name,side,quantity\n01001,Noise,core\n";
    assert!(matches!(parse_csv(text.as_bytes()), Err(CsvError::Csv(_))));
}

fn strings(fields: &[&str]) -> Vec<String> {
    fields.iter().map(|f| f.to_string()).collect()
}

#[test]
fn records_become_cards_in_order() {
    let headers = strings(&["side", "code", "title", "set_code", "set_name", "quantity", "release_date"]);
    let rows = vec![
        Ok(strings(&["corp", "01110", "Hedge Fund", "core", "Core Set", "3", "2012-09-06"])),
        Ok(strings(&["runner", "01050", "Sure Gamble", "core", "Core Set", "+2", ""])),
    ];
    let cards = cards_from_records(&headers, rows).unwrap();
    assert_eq!(cards.len(), 2);
    assert_eq!(cards[0].code, "01110");
    assert_eq!(cards[0].side, "corp");
    assert_eq!(cards[0].release_date, Some("2012-09-06".to_string()));
    assert_eq!(cards[1].title, "Sure Gamble");
    assert_eq!(cards[1].quantity, 2);
    assert_eq!(cards[1].release_date, None);
}

#[test]
fn a_short_record_misses_its_later_fields() {
    let headers = strings(&["code", "title", "set_code", "set_name", "side", "quantity"]);
    let rows = vec![
        Ok(strings(&["01001", "Noise", "core", "Core Set", "runner", "1"])),
        Ok(strings(&["01002", "Deja Vu", "core"])),
    ];
    match cards_from_records(&headers, rows) {
        Err(CsvError::MissingField { row, field }) => {
            assert_eq!(row, 3);
            assert_eq!(field, "set_name");
        }
        other => panic!("unexpected result {:?}", other),
    }
}

#[test]
fn the_first_of_several_columns_with_one_name_is_read() {
    let headers = strings(&["code", "code", "title", "set_code", "set_name", "side", "quantity"]);
    let rows = vec![Ok(strings(&["first", "second", "T", "s", "S", "runner", "1"]))];
    assert_eq!(cards_from_records(&headers, rows).unwrap()[0].code, "first");
}

#[test]
fn errors_describe_the_field_and_the_row() {
    let missing = CsvError::MissingField { row: 4, field: "side" };
    assert_eq!(missing.message(), "Missing required field 'side' at row 4");
    let invalid = CsvError::InvalidQuantity { row: 12, value: "two".to_string() };
    assert_eq!(invalid.message(), "Invalid quantity 'two' at row 12");
    let text = "code,title\n1,2,3\n";
    match parse_csv(text.as_bytes()) {
        Err(e) => assert!(e.message().starts_with("CSV error: ")),
        Ok(_) => panic!("a ragged row must be refused"),
    }
}
