use snowflake::query::{build_snapshot_query, ColumnType, Field, Property, QueryError, Relation};

fn relation(fields: &[&str]) -> Relation {
    Relation {
        name: "T".to_string(),
        fields: fields
            .iter()
            .map(|name| Field {
                sql_name: (*name).to_string(),
                columntype: ColumnType { nullable: true },
                default: None,
                unused: false,
            })
            .collect(),
        properties: Vec::new(),
    }
}

#[test]
fn builds_snapshot_query() {
    let query = build_snapshot_query(
        "DB.SCHEMA.T",
        Some("ID > 10"),
        false,
        &relation(&["ID", "\"customer name\""]),
    )
    .unwrap();

    assert_eq!(
        query,
        "SELECT ID, \"customer name\" FROM DB.SCHEMA.T WHERE ID > 10"
    );
}

#[test]
fn reads_declared_unused_columns_by_default() {
    let mut relation = relation(&["ID", "UNUSED"]);
    relation.fields[1].unused = true;

    assert_eq!(
        build_snapshot_query("T", None, false, &relation).unwrap(),
        "SELECT ID, UNUSED FROM T"
    );
}

#[test]
fn skips_unused_columns_when_requested_by_table() {
    let mut relation = relation(&["ID", "UNUSED"]);
    relation.fields[1].unused = true;
    relation.properties.push(Property {
        key: "skip_unused_columns".to_string(),
        value: "true".to_string(),
    });

    assert_eq!(
        build_snapshot_query("T", None, false, &relation).unwrap(),
        "SELECT ID FROM T"
    );
}

#[test]
fn skips_unused_columns_when_requested_by_connector() {
    let mut relation = relation(&["ID", "UNUSED"]);
    relation.fields[1].unused = true;

    assert_eq!(
        build_snapshot_query("T", None, true, &relation).unwrap(),
        "SELECT ID FROM T"
    );
}

#[test]
fn retains_nonnullable_unused_columns_without_defaults() {
    let mut relation = relation(&["ID", "REQUIRED"]);
    relation.fields[1].unused = true;
    relation.fields[1].columntype.nullable = false;

    assert_eq!(
        build_snapshot_query("T", None, true, &relation).unwrap(),
        "SELECT ID, REQUIRED FROM T"
    );
}

#[test]
fn rejects_empty_table() {
    let err = build_snapshot_query(" ", None, false, &relation(&["ID"])).unwrap_err();
    assert!(err.message().contains("table name"));
}

#[test]
fn skips_nonnullable_unused_columns_with_defaults() {
    let mut relation = relation(&["ID", "DEFAULTED"]);
    relation.fields[1].unused = true;
    relation.fields[1].columntype.nullable = false;
    relation.fields[1].default = Some("0".to_string());

    assert_eq!(
        build_snapshot_query("T", None, true, &relation).unwrap(),
        "SELECT ID FROM T"
    );
}

#[test]
fn the_property_counts_only_if_it_is_true() {
    let mut relation = relation(&["ID", "UNUSED"]);
    relation.fields[1].unused = true;
    for (key, value) in [("other", "true"), ("skip_unused_columns", "TRUE")] {
        relation.properties.push(Property { key: key.to_string(), value: value.to_string() });
    }
    assert_eq!(relation.get_property("other"), Some("true"));
    assert_eq!(relation.get_property("skip_unused_columns"), Some("TRUE"));
    assert_eq!(relation.get_property("missing"), None);
    assert_eq!(
        build_snapshot_query("T", None, false, &relation).unwrap(),
        "SELECT ID, UNUSED FROM T"
    );
}

#[test]
fn trims_table_and_filter() {
    assert_eq!(
        build_snapshot_query(" T\n", Some("\tA = ' x ' "), false, &relation(&["A", "B", "C"])).unwrap(),
        "SELECT A, B, C FROM T WHERE A = ' x '"
    );
}

#[test]
fn rejects_relations_without_columns_and_blank_filters() {
    let mut unused = relation(&["ID"]);
    unused.fields[0].unused = true;
    let error = build_snapshot_query("T", Some(""), true, &unused).unwrap_err();
    assert!(matches!(&error, QueryError::NoColumns { relation } if relation == "T"));
    assert_eq!(
        error.message(),
        "Snowflake snapshot query for input relation 'T' has no columns to read"
    );
    let error = build_snapshot_query("T", Some(" \t"), false, &relation(&["ID"])).unwrap_err();
    assert!(matches!(error, QueryError::EmptyFilter));
    assert_eq!(
        error.message(),
        "Snowflake snapshot filter must not be empty when specified"
    );
    let error = build_snapshot_query("", Some(""), false, &relation(&[])).unwrap_err();
    assert!(matches!(error, QueryError::EmptyTable));
}
