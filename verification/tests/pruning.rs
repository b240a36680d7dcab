use sparkx::expr::{Expr, Operator};
use sparkx::pruning::{
    find_leaf, projected_schema, row_group_may_match, ColumnStatistics, RowGroup,
};
use sparkx::scalar::ScalarValue;
use sparkx::types::{DataType, Field, Schema};

fn schema() -> Schema {
    Schema::new(vec![
        Field::new("id".to_owned(), DataType::Int64, false),
        Field::new("region".to_owned(), DataType::Utf8, true),
    ])
}

fn group() -> RowGroup {
    RowGroup {
        rows: 10,
        columns: vec![
            Some(ColumnStatistics {
                min: Some(ScalarValue::Int64(2)),
                max: Some(ScalarValue::Int64(3)),
                null_count: Some(0),
            }),
            Some(ColumnStatistics {
                min: Some(ScalarValue::Utf8("east".to_owned())),
                max: Some(ScalarValue::Utf8("west".to_owned())),
                null_count: Some(4),
            }),
        ],
    }
}

fn compare(name: &str, op: Operator, value: ScalarValue) -> Expr {
    Expr::binary(Expr::column(name.to_owned()), op, Expr::literal(value))
}

fn may_match(filter: Expr) -> bool {
    row_group_may_match(&schema(), &group(), &vec![filter])
}

#[test]
fn row_groups_are_passed_over_by_their_bounds() {
    let id = |op: Operator, n: i64| may_match(compare("sales.ID", op, ScalarValue::Int64(n)));
    assert!(id(Operator::Eq, 2) && id(Operator::Eq, 3) && !id(Operator::Eq, 4));
    assert!(id(Operator::GtEq, 3) && !id(Operator::GtEq, 4));
    assert!(id(Operator::Gt, 2) && !id(Operator::Gt, 3));
    assert!(id(Operator::Lt, 3) && !id(Operator::Lt, 2));
    assert!(id(Operator::LtEq, 2) && !id(Operator::LtEq, 1));
    assert!(id(Operator::NotEq, 2));
    assert!(!may_match(compare(
        "region",
        Operator::Eq,
        ScalarValue::Utf8("zzz".to_owned())
    )));
    assert!(!may_match(compare("id", Operator::Eq, ScalarValue::Null)));
    assert!(may_match(compare(
        "unknown",
        Operator::Eq,
        ScalarValue::Int64(9)
    )));
}

#[test]
fn sides_may_be_exchanged_and_conditions_combined() {
    let four_at_most = Expr::binary(
        Expr::literal(ScalarValue::Int64(4)),
        Operator::LtEq,
        Expr::column("id".to_owned()),
    );
    assert!(!may_match(four_at_most.clone()));
    let low = compare("id", Operator::Lt, ScalarValue::Int64(0));
    let high = compare("id", Operator::Gt, ScalarValue::Int64(100));
    let some = compare("id", Operator::Eq, ScalarValue::Int64(2));
    assert!(!may_match(Expr::binary(low.clone(), Operator::Or, high)));
    assert!(may_match(Expr::binary(low.clone(), Operator::Or, some.clone())));
    assert!(!may_match(Expr::binary(low, Operator::And, some.clone())));
    assert!(!row_group_may_match(&schema(), &group(), &vec![some, four_at_most]));
}

#[test]
fn nulls_are_counted() {
    let null = |name: &str, negated: bool| {
        may_match(Expr::is_null(Expr::column(name.to_owned()), negated))
    };
    assert!(!null("id", false) && null("id", true));
    assert!(null("region", false) && null("region", true));
    let full = RowGroup {
        rows: 4,
        ..group()
    };
    let present = Expr::is_null(Expr::column("region".to_owned()), true);
    assert!(!row_group_may_match(&schema(), &full, &vec![present]));
}

#[test]
fn leaves_and_projections_follow_their_names() {
    let roots: Vec<String> = ["id", "tags", "tags"].map(str::to_owned).to_vec();
    assert_eq!(find_leaf(&roots, "id"), Some(0));
    assert_eq!(find_leaf(&roots, "tags"), None);
    assert_eq!(find_leaf(&roots, "none"), None);
    let narrowed = projected_schema(&schema(), &Some(vec![1]));
    assert_eq!(narrowed.fields.len(), 1);
    assert_eq!(narrowed.fields[0].name, "region");
    assert_eq!(projected_schema(&schema(), &None), schema());
}
