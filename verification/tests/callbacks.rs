//! Being told of writes.
use mnestic::instance::{CallbackOp, DbInstance};
use mnestic::value::DataValue;

fn whole(n: i64) -> DataValue {
    DataValue::Int(n)
}

#[test]
fn test_callback() {
    let mut db = DbInstance::default();
    let mut collected = vec![];
    let id = db.register_callback("friends");
    db.run_default(":create friends {fr: Int, to: Int => data: Any}")
        .unwrap();
    db.run_default(r"?[fr, to, data] <- [[1,2,3],[4,5,6]] :put friends {fr, to => data}")
        .unwrap();
    db.run_default(r"?[fr, to, data] <- [[1,2,4],[4,7,6]] :put friends {fr, to => data}")
        .unwrap();
    db.run_default(r"?[fr, to] <- [[1,9],[4,5]] :rm friends {fr, to}")
        .unwrap();
    while let Some(d) = db.try_recv(id) {
        collected.push(d);
    }
    let collected = collected;
    assert_eq!(collected[0].0, CallbackOp::Put);
    assert_eq!(collected[0].1.rows.len(), 2);
    assert_eq!(collected[0].1.rows[0].len(), 3);
    assert_eq!(collected[0].2.rows.len(), 0);
    assert_eq!(collected[1].0, CallbackOp::Put);
    assert_eq!(collected[1].1.rows.len(), 2);
    assert_eq!(collected[1].1.rows[0].len(), 3);
    assert_eq!(collected[1].2.rows.len(), 1);
    assert_eq!(collected[1].2.rows[0], vec![whole(1), whole(2), whole(3)]);
    assert_eq!(collected[2].0, CallbackOp::Rm);
    assert_eq!(collected[2].1.rows.len(), 2);
    assert_eq!(collected[2].1.rows[0].len(), 2);
    assert_eq!(collected[2].2.rows.len(), 1);
    assert_eq!(collected[2].2.rows[0].len(), 3);
}

#[test]
fn callbacks_are_told_of_their_relation_alone() {
    let mut db = DbInstance::default();
    db.run_default(":create a {k}").unwrap();
    db.run_default(":create b {k}").unwrap();
    let id = db.register_callback("a");
    db.run_default("?[k] <- [[1]] :put b {k}").unwrap();
    assert!(db.try_recv(id).is_none());
    // A script that fails writes nothing, and nothing is told of it.
    assert!(db.run_default("{?[k] <- [[1]] :put a {k}} {?[k] := *missing{k}}").is_err());
    assert!(db.try_recv(id).is_none());
    // Nor is anything told of a transaction before it is committed.
    let mut tx = db.multi_transaction(true);
    tx.run_script(&db, "?[k] <- [[7]] :put a {k}", &mnestic::db::Params::new()).unwrap();
    assert!(db.try_recv(id).is_none());
    tx.commit(&mut db).unwrap();
    let (op, news, olds) = db.try_recv(id).unwrap();
    assert_eq!(op, CallbackOp::Put);
    assert_eq!(news.rows, vec![vec![whole(7)]]);
    assert!(olds.rows.is_empty());
    assert!(db.try_recv(id).is_none());
}
