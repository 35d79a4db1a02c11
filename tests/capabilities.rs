use iam_capable::capability::{
    extract_capabilities_from_policies, extract_capabilities_from_statement, CapabilityComparisonRow,
    CapabilityRow,
};
use iam_capable::compare::compare_policies;
use iam_capable::iam::{Effect, Policy, PolicyStatement};

fn make_policy_statement(actions: Vec<&str>, resources: Vec<&str>) -> PolicyStatement {
    PolicyStatement {
        action: actions.into_iter().map(String::from).collect(),
        resource: resources.into_iter().map(String::from).collect(),
        effect: Effect::Allow,
    }
}

fn make_policy(statements: Vec<PolicyStatement>) -> Policy {
    Policy {
        statements,
        version: "2012-10-17".to_string(),
    }
}

fn row(resource: &str, action: &str) -> CapabilityRow {
    CapabilityRow {
        resource: resource.to_string(),
        action: action.to_string(),
    }
}

#[test]
fn test_extract_capabilities_from_policies() {
    let policies = vec![Policy {
        version: "2012-10-17".to_string(),
        statements: vec![
            PolicyStatement {
                effect: Effect::Allow,
                action: vec!["s3:ListBucket".to_string(), "s3:GetObject".to_string()],
                resource: vec!["arn:aws:s3:::my-bucket".to_string()],
            },
            PolicyStatement {
                effect: Effect::Allow,
                action: vec!["s3:GetObject".to_string()],
                resource: vec!["arn:aws:s3:::my-bucket/*".to_string()],
            },
        ],
    }];

    // Ordered by resource, then by action.
    let expected_capabilities = vec![
        CapabilityRow {
            resource: "arn:aws:s3:::my-bucket".to_string(),
            action: "s3:GetObject".to_string(),
        },
        CapabilityRow {
            resource: "arn:aws:s3:::my-bucket".to_string(),
            action: "s3:ListBucket".to_string(),
        },
        CapabilityRow {
            resource: "arn:aws:s3:::my-bucket/*".to_string(),
            action: "s3:GetObject".to_string(),
        },
    ];

    let capabilities = extract_capabilities_from_policies(policies);
    assert_eq!(capabilities, expected_capabilities);
}

#[test]
fn test_compare_policies() {
    let policies1 = vec![make_policy(vec![make_policy_statement(
        vec!["s3:ListBucket"],
        vec!["arn:aws:s3:::mybucket"],
    )])];

    let policies2 = vec![make_policy(vec![make_policy_statement(
        vec!["s3:GetObject"],
        vec!["arn:aws:s3:::mybucket/*"],
    )])];

    let capability_rows = compare_policies(policies1, policies2);

    assert_eq!(capability_rows.len(), 2);

    assert_eq!(capability_rows[0].resource, "arn:aws:s3:::mybucket");
    assert_eq!(capability_rows[0].action, "s3:ListBucket");
    assert_eq!(capability_rows[0].has_capability1, true);
    assert_eq!(capability_rows[0].has_capability2, false);

    assert_eq!(capability_rows[1].resource, "arn:aws:s3:::mybucket/*");
    assert_eq!(capability_rows[1].action, "s3:GetObject");
    assert_eq!(capability_rows[1].has_capability1, false);
    assert_eq!(capability_rows[1].has_capability2, true);
}

#[test]
fn statement_extraction_is_a_full_cross_product() {
    let statements = vec![make_policy_statement(
        vec!["s3:GetObject", "s3:PutObject"],
        vec!["r1", "r2", "r3"],
    )];
    let rows = extract_capabilities_from_statement(&statements);
    assert_eq!(rows.len(), 6);
    assert_eq!(
        rows,
        vec![
            row("r1", "s3:GetObject"),
            row("r2", "s3:GetObject"),
            row("r3", "s3:GetObject"),
            row("r1", "s3:PutObject"),
            row("r2", "s3:PutObject"),
            row("r3", "s3:PutObject"),
        ]
    );
}

#[test]
fn statement_extraction_keeps_duplicates() {
    let statements = vec![
        make_policy_statement(vec!["a"], vec!["r"]),
        make_policy_statement(vec!["a"], vec!["r"]),
    ];
    let rows = extract_capabilities_from_statement(&statements);
    assert_eq!(rows, vec![row("r", "a"), row("r", "a")]);
}

#[test]
fn extraction_of_no_documents_is_empty() {
    assert!(extract_capabilities_from_policies(Vec::new()).is_empty());
    let empty = vec![make_policy(Vec::new())];
    assert!(extract_capabilities_from_policies(empty).is_empty());
}

#[test]
fn extraction_sorts_actions_within_a_resource() {
    let policies = vec![make_policy(vec![make_policy_statement(
        vec!["s3:ListBucket", "s3:GetObject"],
        vec!["arn:x:s3:::b"],
    )])];
    assert_eq!(
        extract_capabilities_from_policies(policies),
        vec![row("arn:x:s3:::b", "s3:GetObject"), row("arn:x:s3:::b", "s3:ListBucket")]
    );
}

#[test]
fn extraction_keeps_one_entry_per_capability() {
    let policies = vec![
        make_policy(vec![
            make_policy_statement(vec!["s3:GetObject"], vec!["bucket"]),
            make_policy_statement(vec!["s3:GetObject", "s3:GetObject"], vec!["bucket"]),
        ]),
        make_policy(vec![make_policy_statement(vec!["s3:GetObject"], vec!["bucket"])]),
    ];
    assert_eq!(
        extract_capabilities_from_policies(policies),
        vec![row("bucket", "s3:GetObject")]
    );
}

#[test]
fn extraction_orders_by_resource_first() {
    let policies = vec![make_policy(vec![
        make_policy_statement(vec!["z:Action"], vec!["b"]),
        make_policy_statement(vec!["a:Action"], vec!["c", "ab"]),
        make_policy_statement(vec!["m:Action"], vec!["a"]),
    ])];
    assert_eq!(
        extract_capabilities_from_policies(policies),
        vec![
            row("a", "m:Action"),
            row("ab", "a:Action"),
            row("b", "z:Action"),
            row("c", "a:Action"),
        ]
    );
}

#[test]
fn extraction_orders_by_code_point() {
    let policies = vec![make_policy(vec![make_policy_statement(
        vec!["s3:get", "s3:Get", "s3:G"],
        vec!["Z", "a", "\u{e9}"],
    )])];
    let rows = extract_capabilities_from_policies(policies);
    let resources: Vec<&str> = rows.iter().map(|r| r.resource.as_str()).collect();
    let actions: Vec<&str> = rows.iter().take(3).map(|r| r.action.as_str()).collect();
    assert_eq!(resources, vec!["Z", "Z", "Z", "a", "a", "a", "\u{e9}", "\u{e9}", "\u{e9}"]);
    assert_eq!(actions, vec!["s3:G", "s3:Get", "s3:get"]);
}

#[test]
fn extraction_counts_deny_statements_too() {
    let mut statement = make_policy_statement(vec!["s3:DeleteObject"], vec!["bucket"]);
    statement.effect = Effect::Deny;
    let policies = vec![make_policy(vec![statement])];
    assert_eq!(
        extract_capabilities_from_policies(policies),
        vec![row("bucket", "s3:DeleteObject")]
    );
}

#[test]
fn compare_marks_each_side() {
    let side1 = vec![make_policy(vec![make_policy_statement(vec!["s3:ListBucket"], vec!["bucket"])])];
    let side2 = vec![make_policy(vec![make_policy_statement(vec!["s3:GetObject"], vec!["bucket/*"])])];
    let rows = compare_policies(side1, side2);
    assert_eq!(
        rows,
        vec![
            CapabilityComparisonRow {
                resource: "bucket".to_string(),
                action: "s3:ListBucket".to_string(),
                has_capability1: true,
                has_capability2: false,
            },
            CapabilityComparisonRow {
                resource: "bucket/*".to_string(),
                action: "s3:GetObject".to_string(),
                has_capability1: false,
                has_capability2: true,
            },
        ]
    );
}

#[test]
fn compare_drops_shared_capabilities() {
    let side1 = vec![make_policy(vec![make_policy_statement(vec!["s3:GetObject"], vec!["bucket"])])];
    let side2 = vec![make_policy(vec![make_policy_statement(vec!["s3:GetObject"], vec!["bucket"])])];
    assert!(compare_policies(side1, side2).is_empty());
}

#[test]
fn compare_keeps_only_the_asymmetric_part_in_order() {
    let side1 = vec![make_policy(vec![make_policy_statement(
        vec!["s3:GetObject", "s3:PutObject"],
        vec!["b", "a"],
    )])];
    let side2 = vec![
        make_policy(vec![make_policy_statement(vec!["s3:GetObject"], vec!["a", "b"])]),
        make_policy(vec![make_policy_statement(vec!["s3:DeleteObject"], vec!["a"])]),
    ];
    let rows = compare_policies(side1, side2);
    let summary: Vec<(&str, &str, bool, bool)> = rows
        .iter()
        .map(|r| (r.resource.as_str(), r.action.as_str(), r.has_capability1, r.has_capability2))
        .collect();
    assert_eq!(
        summary,
        vec![
            ("a", "s3:DeleteObject", false, true),
            ("a", "s3:PutObject", true, false),
            ("b", "s3:PutObject", true, false),
        ]
    );
}

#[test]
fn compare_of_nothing_is_empty() {
    assert!(compare_policies(Vec::new(), Vec::new()).is_empty());
}
