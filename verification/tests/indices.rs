//! Indices by columns.
use mnestic::instance::DbInstance;
use mnestic::value::DataValue;

fn whole(n: i64) -> DataValue {
    DataValue::Int(n)
}

fn numbers(rows: &[&[i64]]) -> Vec<Vec<DataValue>> {
    rows.iter().map(|r| r.iter().map(|n| whole(*n)).collect()).collect()
}

#[test]
fn test_index() {
    let mut db = DbInstance::default();
    db.run_default(":create friends {fr: Int, to: Int => data: Any}")
        .unwrap();

    db.run_default(r"?[fr, to, data] <- [[1,2,3],[4,5,6]] :put friends {fr, to, data}")
        .unwrap();

    assert!(db
        .run_default("::index create friends:rev {to, no}")
        .is_err());
    db.run_default("::index create friends:rev {to, data}")
        .unwrap();

    db.run_default(r"?[fr, to, data] <- [[1,2,5],[6,5,7]] :put friends {fr, to => data}")
        .unwrap();
    db.run_default(r"?[fr, to] <- [[4,5]] :rm friends {fr, to}")
        .unwrap();

    let rels_data = db
        .export_relations(&["friends", "friends:rev"])
        .unwrap();
    assert_eq!(
        rels_data.get("friends").unwrap().rows,
        numbers(&[&[1, 2, 5], &[6, 5, 7]])
    );
    assert_eq!(
        rels_data.get("friends:rev").unwrap().rows,
        numbers(&[&[2, 5, 1], &[5, 7, 6]])
    );

    let rels = db.run_default("::relations").unwrap();
    assert_eq!(rels.rows[1][0], DataValue::from("friends:rev"));
    assert_eq!(rels.rows[1][1], whole(3));
    assert_eq!(rels.rows[1][2], DataValue::from("index"));

    let cols = db.run_default("::columns friends:rev").unwrap();
    assert_eq!(cols.rows.len(), 3);

    let res = db
        .run_default("?[fr, data] := *friends:rev{to: 2, fr, data}")
        .unwrap();
    assert_eq!(res.rows, numbers(&[&[1, 5]]));

    let res = db
        .run_default("?[fr, data] := *friends{to: 2, fr, data}")
        .unwrap();
    assert_eq!(res.rows, numbers(&[&[1, 5]]));

    let expl = db
        .run_default("::explain { ?[fr, data] := *friends{to: 2, fr, data} }")
        .unwrap();
    let joins = expl.rows
        .iter()
        .map(|row| row[5].clone())
        .collect::<Vec<_>>();
    assert!(joins.contains(&DataValue::from(":friends:rev")));
    db.run_default("::index drop friends:rev").unwrap();
}

#[test]
fn test_index_short() {
    let mut db = DbInstance::default();
    db.run_default(":create friends {fr: Int, to: Int => data: Any}")
        .unwrap();

    db.run_default(r"?[fr, to, data] <- [[1,2,3],[4,5,6]] :put friends {fr, to => data}")
        .unwrap();

    db.run_default("::index create friends:rev {to}").unwrap();

    db.run_default(r"?[fr, to, data] <- [[1,2,5],[6,5,7]] :put friends {fr, to => data}")
        .unwrap();
    db.run_default(r"?[fr, to] <- [[4,5]] :rm friends {fr, to}")
        .unwrap();

    let rels_data = db
        .export_relations(&["friends", "friends:rev"])
        .unwrap();
    assert_eq!(
        rels_data.get("friends").unwrap().rows,
        numbers(&[&[1, 2, 5], &[6, 5, 7]])
    );
    assert_eq!(
        rels_data.get("friends:rev").unwrap().rows,
        numbers(&[&[2, 1], &[5, 6]])
    );

    let rels = db.run_default("::relations").unwrap();
    assert_eq!(rels.rows[1][0], DataValue::from("friends:rev"));
    assert_eq!(rels.rows[1][1], whole(2));
    assert_eq!(rels.rows[1][2], DataValue::from("index"));

    let cols = db.run_default("::columns friends:rev").unwrap();
    assert_eq!(cols.rows.len(), 2);

    let expl = db
        .run_default("::explain { ?[fr, data] := *friends{to: 2, fr, data} }")
        .unwrap();

    for row in &expl.rows {
        println!("{:?}", row);
    }

    let joins = expl.rows
        .iter()
        .map(|row| row[5].clone())
        .collect::<Vec<_>>();
    assert!(joins.contains(&DataValue::from(":friends:rev")));

    let res = db
        .run_default("?[fr, data] := *friends{to: 2, fr, data}")
        .unwrap();
    assert_eq!(res.rows, numbers(&[&[1, 5]]));
}

