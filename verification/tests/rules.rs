//! Rules that users register.
use mnestic::error::ErrKind;
use mnestic::instance::DbInstance;
use mnestic::rules::SumCols;
use mnestic::value::DataValue;

fn whole(n: i64) -> DataValue {
    DataValue::Int(n)
}

#[test]
fn test_custom_rules() {
    let mut db = DbInstance::default();
    db.register_fixed_rule("SumCols".to_string(), Box::new(SumCols))
        .unwrap();
    let res = db
        .run_default(
            r#"
        rel[] <- [[1,2,3,4],[5,6,7,8]]
        ?[x] <~ SumCols(rel[], mult: 100)
    "#,
        )
        .unwrap();
    assert_eq!(res.rows, vec![vec![whole(1000)], vec![whole(2600)]]);
}

#[test]
fn custom_rules_are_checked() {
    let mut db = DbInstance::default();
    db.register_fixed_rule("SumCols".to_string(), Box::new(SumCols)).unwrap();
    let again = db.register_fixed_rule("SumCols".to_string(), Box::new(SumCols));
    assert_eq!(again.unwrap_err().kind, ErrKind::FixedRuleExists);
    let own = db.register_fixed_rule("ReorderSort".to_string(), Box::new(SumCols));
    assert_eq!(own.unwrap_err().kind, ErrKind::FixedRuleExists);

    // Without the option the sum is doubled, and what is no integer counts nothing.
    let res = db
        .run_default("rel[a, b] <- [[1, 'x'], [2, 3]] ?[x] <~ SumCols(rel[a, b])")
        .unwrap();
    assert_eq!(res.rows, vec![vec![whole(2)], vec![whole(10)]]);

    let res = db
        .run_default("rel[a, b] <- [[1, 2]] ?[x] <~ SumCols(rel[_, _])")
        .unwrap();
    assert_eq!(res.rows, vec![vec![whole(6)]]);

    let mut refused = |script: &str| db.run_default(script).unwrap_err().kind;
    assert_eq!(
        refused("rel[a] <- [[1]] ?[x, y] <~ SumCols(rel[a])"),
        ErrKind::ArityMismatch
    );
    assert_eq!(refused("?[x] <~ SumCols()"), ErrKind::FixedRuleArgs);
    // An input may leave a column blank twice, but binds a variable once.
    assert_eq!(
        refused("rel[a, b] <- [[1, 2]] ?[x] <~ SumCols(rel[a, a])"),
        ErrKind::FixedRuleArgs
    );
    assert_eq!(
        refused("rel[a] <- [[1]] ?[x] <~ SumCols(rel[a], mult: 'x')"),
        ErrKind::FixedRuleArgs
    );
    assert_eq!(
        refused("rel[a] <- [[9223372036854775807]] ?[x] <~ SumCols(rel[a])"),
        ErrKind::Overflow
    );
    assert_eq!(refused("rel[a] <- [[1]] ?[x] <~ SumRows(rel[a])"), ErrKind::UnknownFixedRule);
}

#[test]
fn strict_checks_for_fixed_rules_args() {
    let mut db = DbInstance::default();
    let res = db.run_default(
        r#"
            r[] <- [[1, 2]]
            ?[] <~ PageRank(r[_, _])
        "#,
    );
    println!("{:?}", res);
    assert!(res.is_ok());

    let mut db = DbInstance::default();
    let res = db.run_default(
        r#"
            r[] <- [[1, 2]]
            ?[] <~ PageRank(r[a, b])
        "#,
    );
    assert!(res.is_ok());

    let mut db = DbInstance::default();
    let res = db.run_default(
        r#"
            r[] <- [[1, 2]]
            ?[] <~ PageRank(r[a, a])
        "#,
    );
    assert!(res.is_err());
}

#[test]
fn ranks_of_a_small_graph() {
    let mut db = DbInstance::default();
    // In a cycle all nodes are alike.
    let res = db
        .run_default("r[a, b] <- [[1, 2], [2, 1]] ?[n, rank] <~ PageRank(r[a, b])")
        .unwrap();
    assert_eq!(
        res.rows,
        vec![
            vec![whole(1), DataValue::Real(500_000)],
            vec![whole(2), DataValue::Real(500_000)],
        ]
    );
    // One round by hand: a node that nothing leads to keeps what every node has.
    let res = db
        .run_default("r[a, b] <- [[1, 2]] ?[n, rank] <~ PageRank(r[a, b], iterations: 1)")
        .unwrap();
    assert_eq!(
        res.rows,
        vec![
            vec![whole(1), DataValue::Real(75_000)],
            vec![whole(2), DataValue::Real(500_000)],
        ]
    );
    let bad = "r[a] <- [[1]] ?[n, rank] <~ PageRank(r[a])";
    assert_eq!(db.run_default(bad).unwrap_err().kind, ErrKind::FixedRuleArgs);
    let bad = "r[a, b] <- [[1, 2]] ?[n, rank] <~ PageRank(r[a, b], theta: 2)";
    assert_eq!(db.run_default(bad).unwrap_err().kind, ErrKind::FixedRuleArgs);
}
