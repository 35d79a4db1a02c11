use iam_capable::capability::{CapabilityComparisonRow, CapabilityRow};
use iam_capable::json::JsonValue;
use iam_capable::output::{
    comparison_rows_from_json, csv_table, csv_text, rows_to_json, OutputFormat, OutputSerializable,
};

fn comparison_rows() -> Vec<CapabilityComparisonRow> {
    vec![
        CapabilityComparisonRow {
            resource: "arn:aws:s3:::mybucket".to_string(),
            action: "s3:ListBucket".to_string(),
            has_capability1: true,
            has_capability2: false,
        },
        CapabilityComparisonRow {
            resource: "arn:aws:s3:::mybucket/*".to_string(),
            action: "s3:GetObject".to_string(),
            has_capability1: false,
            has_capability2: true,
        },
    ]
}

#[test]
fn json_round_trip_keeps_rows_and_order() {
    let rows = comparison_rows();
    let v = rows_to_json(&rows);
    let back = comparison_rows_from_json(&v).unwrap();
    assert_eq!(back, rows);
    assert_eq!(back[0].resource, "arn:aws:s3:::mybucket");
    assert_eq!(back[0].action, "s3:ListBucket");
    assert_eq!(back[0].has_capability1, true);
    assert_eq!(back[0].has_capability2, false);
    assert_eq!(back[1].resource, "arn:aws:s3:::mybucket/*");
    assert_eq!(back[1].action, "s3:GetObject");
    assert_eq!(back[1].has_capability1, false);
    assert_eq!(back[1].has_capability2, true);
}

#[test]
fn json_of_no_rows_is_an_empty_array() {
    let rows: Vec<CapabilityComparisonRow> = Vec::new();
    match rows_to_json(&rows) {
        JsonValue::Array(items) => assert!(items.is_empty()),
        _ => panic!("not an array"),
    }
    assert_eq!(comparison_rows_from_json(&JsonValue::Array(vec![])), Some(Vec::new()));
}

#[test]
fn comparison_row_json_members() {
    let v = comparison_rows()[0].to_json_value();
    match v {
        JsonValue::Object(members) => {
            let names: Vec<&str> = members.iter().map(|(k, _)| k.as_str()).collect();
            assert_eq!(names, vec!["resource", "action", "role1", "role2"]);
            assert!(matches!(&members[2].1, JsonValue::Bool(true)));
            assert!(matches!(&members[3].1, JsonValue::Bool(false)));
        }
        _ => panic!("not an object"),
    }
}

#[test]
fn capability_row_json_members() {
    let row = CapabilityRow { resource: "r".to_string(), action: "a".to_string() };
    match row.to_json_value() {
        JsonValue::Object(members) => {
            assert_eq!(members.len(), 2);
            assert_eq!(members[0].0, "resource");
            assert!(matches!(&members[0].1, JsonValue::Str(s) if s == "r"));
            assert_eq!(members[1].0, "action");
            assert!(matches!(&members[1].1, JsonValue::Str(s) if s == "a"));
        }
        _ => panic!("not an object"),
    }
}

#[test]
fn reading_back_needs_every_member() {
    let missing = JsonValue::Array(vec![JsonValue::Object(vec![
        ("resource".to_string(), JsonValue::Str("r".to_string())),
        ("action".to_string(), JsonValue::Str("a".to_string())),
        ("role1".to_string(), JsonValue::Bool(true)),
    ])]);
    assert_eq!(comparison_rows_from_json(&missing), None);
    let wrong_kind = JsonValue::Array(vec![JsonValue::Object(vec![
        ("role2".to_string(), JsonValue::Bool(false)),
        ("resource".to_string(), JsonValue::Str("r".to_string())),
        ("action".to_string(), JsonValue::Str("a".to_string())),
        ("role1".to_string(), JsonValue::Str("true".to_string())),
    ])]);
    assert_eq!(comparison_rows_from_json(&wrong_kind), None);
    assert_eq!(comparison_rows_from_json(&JsonValue::Null), None);
}

#[test]
fn reading_back_takes_members_in_any_order() {
    let v = JsonValue::Array(vec![JsonValue::Object(vec![
        ("role2".to_string(), JsonValue::Bool(true)),
        ("action".to_string(), JsonValue::Str("a".to_string())),
        ("extra".to_string(), JsonValue::Null),
        ("role1".to_string(), JsonValue::Bool(false)),
        ("resource".to_string(), JsonValue::Str("r".to_string())),
    ])]);
    let rows = comparison_rows_from_json(&v).unwrap();
    assert_eq!(
        rows,
        vec![CapabilityComparisonRow {
            resource: "r".to_string(),
            action: "a".to_string(),
            has_capability1: false,
            has_capability2: true,
        }]
    );
}

#[test]
fn csv_table_of_comparison_rows() {
    let table = csv_table(&comparison_rows());
    assert_eq!(
        table,
        vec![
            vec!["Resource", "Action", "Role1", "Role2"],
            vec!["arn:aws:s3:::mybucket", "s3:ListBucket", "true", "false"],
            vec!["arn:aws:s3:::mybucket/*", "s3:GetObject", "false", "true"],
        ]
    );
}

#[test]
fn csv_table_of_no_rows_is_the_header() {
    let rows: Vec<CapabilityComparisonRow> = Vec::new();
    assert_eq!(csv_table(&rows), vec![vec!["Resource", "Action", "Role1", "Role2"]]);
}

#[test]
fn csv_table_of_capabilities() {
    let rows = vec![CapabilityRow { resource: "Resource1".to_string(), action: "Action1".to_string() }];
    assert_eq!(
        csv_table(&rows),
        vec![vec!["Resource", "Action"], vec!["Resource1", "Action1"]]
    );
    assert_eq!(CapabilityRow::csv_header(), vec!["Resource", "Action"]);
}

#[test]
fn output_format_names() {
    assert_eq!(OutputFormat::from_name("csv"), Ok(OutputFormat::Csv));
    assert_eq!(OutputFormat::from_name("CSV"), Ok(OutputFormat::Csv));
    assert_eq!(OutputFormat::from_name("Json"), Ok(OutputFormat::Json));
    assert_eq!(
        OutputFormat::from_name("Xml"),
        Err("Invalid output format: Xml".to_string())
    );
    assert_eq!("jSoN".parse::<OutputFormat>(), Ok(OutputFormat::Json));
}

#[test]
fn output_format_from_lowercase_name() {
    assert_eq!(OutputFormat::from_lowercase("json", "JSON"), Ok(OutputFormat::Json));
    assert_eq!(
        OutputFormat::from_lowercase("CSV", "CSV"),
        Err("Invalid output format: CSV".to_string())
    );
    assert_eq!(
        OutputFormat::from_lowercase("", ""),
        Err("Invalid output format: ".to_string())
    );
}

#[test]
fn test_write_csv_empty_rows() {
    let rows: Vec<CapabilityComparisonRow> = Vec::new();
    let content = csv_text(&rows);
    assert_eq!(content, "Resource,Action,Role1,Role2\n");
}

#[test]
fn test_write_csv_single_row() {
    let rows = vec![CapabilityComparisonRow {
        resource: String::from("Resource1"),
        action: String::from("Action1"),
        has_capability1: true,
        has_capability2: false,
    }];
    let content = csv_text(&rows);
    assert_eq!(
        content,
        "Resource,Action,Role1,Role2\nResource1,Action1,true,false\n"
    );
}

#[test]
fn test_write_csv_multiple_rows() {
    let rows = vec![
        CapabilityComparisonRow {
            resource: String::from("Resource1"),
            action: String::from("Action1"),
            has_capability1: true,
            has_capability2: false,
        },
        CapabilityComparisonRow {
            resource: String::from("Resource2"),
            action: String::from("Action2"),
            has_capability1: false,
            has_capability2: true,
        },
    ];
    let content = csv_text(&rows);
    assert_eq!(
        content,
        "Resource,Action,Role1,Role2\nResource1,Action1,true,false\nResource2,Action2,false,true\n"
    );
}

#[test]
fn csv_fields_with_commas_are_quoted() {
    let rows = vec![CapabilityRow { resource: "a,b".to_string(), action: "say \"hi\"".to_string() }];
    assert_eq!(csv_text(&rows), "Resource,Action\n\"a,b\",\"say \"\"hi\"\"\"\n");
}
