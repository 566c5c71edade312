//! Relations with temporal axes.
use mnestic::backup::Import;
use mnestic::db::{NamedRows, Params, ScriptMutability};
use mnestic::fixtures::{bitemporal_fixture, corrupt_all_index_values};
use mnestic::instance::DbInstance;
use mnestic::list::List;
use mnestic::value::{DataValue, Tuple};

fn whole(n: i64) -> DataValue {
    DataValue::Int(n)
}

fn frac(x: f64) -> DataValue {
    DataValue::Real((x * 1_000_000.0).round() as i128)
}

fn text(s: &str) -> DataValue {
    DataValue::from(s)
}

fn list(v: Vec<DataValue>) -> DataValue {
    DataValue::List(v)
}

fn num(v: &DataValue) -> i64 {
    match v {
        DataValue::Int(n) => *n,
        _ => panic!("not an integer: {:?}", v),
    }
}

fn words(v: &DataValue) -> &str {
    match v {
        DataValue::Str(s) => s.as_str(),
        _ => panic!("not a string: {:?}", v),
    }
}

fn strings(v: &[&str]) -> Vec<String> {
    v.iter().map(|s| s.to_string()).collect()
}

fn fixture(engine: &str) -> (DbInstance, [i64; 4]) {
    match bitemporal_fixture(engine, "") {
        Ok(pair) => pair,
        Err(err) => panic!("{}", err.report()),
    }
}

fn batch(name: &str, headers: &[&str], rows: Vec<Vec<DataValue>>) -> List<Import> {
    let mut items = List::new();
    items.push(Import {
        name: name.to_string(),
        rows: NamedRows {
            headers: headers.iter().map(|s| s.to_string()).collect(),
            rows,
        },
    });
    items
}

fn present() -> i64 {
    std::time::SystemTime::now()
        .duration_since(std::time::UNIX_EPOCH)
        .unwrap()
        .as_micros() as i64
}

#[test]
fn txtime_create_validation() {
    let mut db = DbInstance::new("mem", "", "").unwrap();
    let mut expect_axis_err = |script: &str, needle: &str| {
        let err = db.run_default(script).expect_err(script);
        let msg = err.report()
            .split_whitespace()
            .collect::<Vec<_>>()
            .join(" ");
        assert!(
            msg.contains("invalid temporal-axis declaration"),
            "{script}: {msg}"
        );
        assert!(
            msg.contains(needle),
            "{script}: expected `{needle}` in: {msg}"
        );
        assert!(
            msg.contains(":create"),
            "{script}: no corrected form in: {msg}"
        );
    };

    expect_axis_err(
        ":create r_val {k => v: Int, tt: TxTime}",
        "key column, not a value column",
    );
    expect_axis_err(":create r_pos {tt: TxTime, k => v: Int}", "last key column");
    expect_axis_err(
        ":create r_ord {k, tt: TxTime, v: Validity => x: Int}",
        "last key column",
    );
    expect_axis_err(
        ":create r_two {k, t1: TxTime, t2: TxTime => v: Int}",
        "at most one TxTime",
    );
    expect_axis_err(
        ":create r_2vt {v1: Validity, v2: Validity, tt: TxTime}",
        "at most one Validity",
    );
    expect_axis_err(
        ":create r_null {k, tt: TxTime? => v: Int}",
        "cannot be nullable",
    );
    expect_axis_err(
        ":create r_gap {v: Validity, k, tt: TxTime}",
        "immediately precede",
    );

    db.run_default(":create audit {k, tt: TxTime => v: Int}")
        .unwrap();
    db.run_default(":create belief {e, v: Validity, tt: TxTime => x: Int}")
        .unwrap();
    let cols = db.run_default("::columns audit").unwrap();
    let rendered = format!("{:?}", cols.rows);
    assert!(rendered.contains("TxTime"), "{rendered}");
}

#[test]
fn txtime_create_rejected_on_temp_relations() {
    let mut db = DbInstance::new("mem", "", "").unwrap();
    let err = db
        .run_default("{:create _tmp {k, tt: TxTime => v: Int}} {?[k] <- [[1]]}")
        .expect_err("temp TxTime must be rejected");
    let msg = err.report();
    assert!(msg.contains("transaction-temp"), "{msg}");
}

#[test]
fn txtime_user_supplied_value_rejected() {
    let mut db = DbInstance::new("mem", "", "").unwrap();
    db.run_default(":create audit2 {k, tt: TxTime => v: Int}")
        .unwrap();
    let err = db
        .run_default("?[k, tt, v] <- [[1, 123, 2]] :put audit2 {k, tt => v}")
        .expect_err("user-supplied tt must be rejected");
    let msg = err.report();
    assert!(msg.contains("engine-assigned"), "{msg}");
}

#[test]
fn txtime_put_stamps_at_commit() {
    let mut db = DbInstance::new("mem", "", "").unwrap();
    db.run_default(":create audit_w {k, tt: TxTime => v: Int}")
        .unwrap();

    let res = db
        .run_default("{?[k, v] <- [[1, 10]] :put audit_w {k => v}} {?[k] := *audit_w[k, tt, v]}")
        .unwrap()
        ;
    assert_eq!(res.rows.len(), 0);

    let res = db
        .run_default("?[k, v] := *audit_w[k, tt, v]")
        .unwrap()
        ;
    assert_eq!(res.rows, vec![vec![whole(1), whole(10)]]);

        let between = db.tt_clock().peek() + 1;
    db.run_default("?[k, v] <- [[1, 20]] :put audit_w {k => v}")
        .unwrap();

    let res = db
        .run_default("?[k, v] := *audit_w[k, tt, v]")
        .unwrap()
        ;
    assert_eq!(res.rows, vec![vec![whole(1), whole(20)]]);

    let res = db
        .run_default(&format!("?[k, v] := *audit_w[k, tt, v @ (tt: {between})]"))
        .unwrap()
        ;
    assert_eq!(res.rows, vec![vec![whole(1), whole(10)]]);

    let res = db
        .run_default("?[k, v] := *audit_w[k, tt, v @ (tt: 1)]")
        .unwrap()
        ;
    assert_eq!(res.rows.len(), 0);

    let res = db
        .run_default("?[k, v] := *audit_w[k, tt, v @ (tt: 'NOW')]")
        .unwrap()
        ;
    assert_eq!(res.rows, vec![vec![whole(1), whole(20)]]);
}

#[test]
fn txtime_same_tx_double_put_is_last_write_wins() {
    let mut db = DbInstance::new("mem", "", "").unwrap();
    db.run_default(":create audit_lww {k, tt: TxTime => v: Int}")
        .unwrap();
    db.run_default("?[k, v] <- [[1, 10], [1, 20]] :put audit_lww {k => v}")
        .unwrap();
    let res = db
        .run_default("?[v] := *audit_lww[k, tt, v]")
        .unwrap()
        ;
    let rows = &res.rows;
    assert_eq!(rows.len(), 1, "same (key, tt) collapses: {rows:?}");
}

#[test]
fn txtime_rm_appends_retraction() {
    let mut db = DbInstance::new("mem", "", "").unwrap();
    db.run_default(":create audit_rm {k, tt: TxTime => v: Int}")
        .unwrap();
    db.run_default("?[k, v] <- [[1, 10]] :put audit_rm {k => v}")
        .unwrap();
        let before_rm = db.tt_clock().peek() + 1;
    db.run_default("?[k] <- [[1]] :rm audit_rm {k}").unwrap();

    let res = db
        .run_default("?[k] := *audit_rm[k, tt, v]")
        .unwrap()
        ;
    assert_eq!(res.rows.len(), 0);

    let res = db
        .run_default(&format!(
            "?[k, v] := *audit_rm[k, tt, v @ (tt: {before_rm})]"
        ))
        .unwrap()
        ;
    assert_eq!(res.rows, vec![vec![whole(1), whole(10)]]);

    db.run_default("?[k] <- [[1]] :rm audit_rm {k}").unwrap();

    db.run_default("?[k] <- [[999]] :rm audit_rm {k}").unwrap();
    let err = db
        .run_default("?[k] <- [[999]] :delete audit_rm {k}")
        .expect_err(":delete missing must fail");
    assert!(err.report().contains("does not exist"), "{}", err.report());
}

#[test]
fn txtime_bitemporal_puts_and_conflicts() {
    let mut db = DbInstance::new("mem", "", "").unwrap();
    db.run_default(":create belief_w {e, v: Validity, tt: TxTime => x: Int}")
        .unwrap();
    db.run_default("?[e, v, x] <- [[1, 'ASSERT', 10]] :put belief_w {e, v => x}")
        .unwrap();
    db.run_default("?[e, v, x] <- [[1, 'RETRACT', 10]] :put belief_w {e, v => x}")
        .unwrap();
    let res = db
        .run_default("?[v, x] := *belief_w[e, v, tt, x]")
        .unwrap()
        ;
    assert_eq!(res.rows.len(), 2);

    let err = db
        .run_default(
            "?[e, v, x] <- [[2, [123, true], 1], [2, [123, false], 1]] :put belief_w {e, v => x}",
        )
        .expect_err("assert+retract same (key, vt) in one tx must fail");
    assert!(
        err.report().contains("asserts AND retracts"), "{}", err.report()
    );

    db.run_default("?[e, v] <- [[1, 'RETRACT']] :rm belief_w {e, v}")
        .unwrap();
    let res = db
        .run_default("?[x] := *belief_w[e, v, tt, x @ 'NOW']")
        .unwrap()
        ;
    assert_eq!(res.rows.len(), 0, "ceased now");
}

#[test]
fn txtime_unsupported_ops_error() {
    let mut db = DbInstance::new("mem", "", "").unwrap();
    db.run_default(":create audit_ops {k, tt: TxTime => v: Int}")
        .unwrap();
    let err = db
        .run_default("?[k, v] <- [[1, 1]] :replace audit_ops {k => v}")
        .expect_err("replace must fail");
    assert!(err.report().contains("history"), "{}", err.report());

    let err = db
        .run_default(r#"::set_triggers audit_ops on put { ?[k] <- [[1]] }"#)
        .expect_err("triggers must fail");
    assert!(err.report().contains("not supported"), "{}", err.report());

    let err = db
        .run_default("::index create audit_ops:by_v {v}")
        .expect_err("index create must fail");
    assert!(err.report().contains("not supported"), "{}", err.report());
}

#[test]
fn txtime_rows_persist_across_reopen() {
    let storage = {
        let mut db = DbInstance::new("sqlite", "", "").unwrap();
        db.run_default(":create audit_p {k, tt: TxTime => v: Int}")
            .unwrap();
        db.run_default("?[k, v] <- [[1, 10]] :put audit_p {k => v}")
            .unwrap();
        db.into_storage()
    };
    let mut db = DbInstance::open("sqlite", storage).unwrap();
    let res = db.run_default("?[k, v] := *audit_p[k, tt, v]").unwrap();
    assert_eq!(res.rows, vec![vec![whole(1), whole(10)]]);
}

#[test]
fn txtime_import_relations_one_tt_per_batch() {
    let mut db = DbInstance::new("mem", "", "").unwrap();
    db.run_default(":create audit_imp {k, tt: TxTime => v: Int}")
        .unwrap();

    let payload = batch(
        "audit_imp",
        &["k", "v"],
        vec![vec![whole(1), whole(10)], vec![whole(2), whole(20)]],
    );
    db.import_relations(&payload).unwrap();
    let res = db
        .run_default("?[k, tt, v] := *audit_imp[k, tt, v]")
        .unwrap();
    let rows = &res.rows;
    assert_eq!(rows.len(), 2, "{rows:?}");
    assert_eq!(rows[0][1], rows[1][1], "one tt per import batch: {rows:?}");

    let bad = batch(
        "audit_imp",
        &["k", "tt", "v"],
        vec![vec![whole(3), whole(1), whole(30)]],
    );
    let err = db
        .import_relations(&bad)
        .expect_err("tt header must be rejected");
    assert!(err.report().contains("engine-assigned"), "{}", err.report());

    let del = batch("-audit_imp", &["k"], vec![vec![whole(1)]]);
    let err = db
        .import_relations(&del)
        .expect_err("delete-import must be rejected");
    assert!(err.report().contains("use :rm"), "{}", err.report());
}

#[test]
fn txtime_restore_backup_reseeds_clock() {
    let far_future;
    let backup = {
        let mut db = DbInstance::new("sqlite", "", "").unwrap();
        db.run_default(":create audit_b {k, tt: TxTime => v: Int}")
            .unwrap();
        far_future = db.inner_mut().advance_clock(present() + 3_600_000_000);
        db.run_default("?[k, v] <- [[1, 10]] :put audit_b {k => v}")
            .unwrap();
        db.backup_db()
    };

    let mut db = DbInstance::new("sqlite", "", "").unwrap();
    db.restore_backup(&backup).unwrap();
    assert!(
        db.tt_clock().peek() > far_future,
        "restore must re-seed the clock past the restored mark"
    );
    let res = db.run_default("?[k, v] := *audit_b[k, tt, v]").unwrap();
    assert_eq!(res.rows, vec![vec![whole(1), whole(10)]]);

    let err = db
        .import_from_backup(&backup, &["audit_b"])
        .expect_err("import_from_backup of tt relation must be rejected");
    assert!(err.report().contains("restore_backup"), "{}", err.report());
}

#[test]
fn restore_backup_reseeds_relation_store_id() {
    let backup = {
        let mut src = DbInstance::new("sqlite", "", "").unwrap();
        src.run_default(":create alpha {k: Int => v: String}")
            .unwrap();
        src.run_default(":create beta {k: Int => v: String}")
            .unwrap();
        src.run_default("?[k, v] <- [[1, 'alpha-one']] :put alpha {k => v}")
            .unwrap();
        src.backup_db()
    };

    let mut dst = DbInstance::new("sqlite", "", "").unwrap();
    dst.restore_backup(&backup).unwrap();
    dst.run_default(":create gamma {k: Int => v: String}")
        .unwrap();
    dst.run_default("?[k, v] <- [[1, 'gamma-one']] :put gamma {k => v}")
        .unwrap();

    let alpha = dst.run_default("?[k, v] := *alpha{k, v}").unwrap();
    assert_eq!(alpha.rows, vec![vec![whole(1), text("alpha-one")]]);
    let gamma = dst.run_default("?[k, v] := *gamma{k, v}").unwrap();
    assert_eq!(gamma.rows, vec![vec![whole(1), text("gamma-one")]]);
}

#[test]
fn poisoned_relation_counter_is_repaired_on_open() {
    let storage = {
        let mut db = DbInstance::new("sqlite", "", "").unwrap();
        db.run_default(":create alpha {k: Int => v: String}")
            .unwrap();
        db.run_default(":create beta {k: Int => v: String}")
            .unwrap();
        db.run_default("?[k, v] <- [[1, 'beta-one']] :put beta {k => v}")
            .unwrap();
        let mut storage = db.into_storage();
        storage.next_id = 1;
        storage
    };

    let mut db = DbInstance::open("sqlite", storage).unwrap();
    db.run_default(":create gamma {k: Int => v: String}")
        .unwrap();
    db.run_default("?[k, v] <- [[1, 'gamma-one']] :put gamma {k => v}")
        .unwrap();
    let beta = db.run_default("?[k, v] := *beta{k, v}").unwrap();
    assert_eq!(beta.rows, vec![vec![whole(1), text("beta-one")]]);
}

#[test]
fn corrupt_value_rows_error_and_can_be_repaired() {
    let mut db = DbInstance::new("sqlite", "", "").unwrap();
    db.run_default(":create damaged {k: Int => v: String}")
        .unwrap();
    db.run_default("?[k, v] <- [[1, 'intact']] :put damaged {k => v}")
        .unwrap();

        let mut key = Tuple::new();
    key.push(whole(1));
    db.put_raw("damaged", key, vec![0x91, 0x01, 0x02]).unwrap();

    let scan_error = db
        .run_default("?[k, v] := *damaged{k, v}")
        .expect_err("a corrupt row must fail a full scan without panicking");
    assert!(
        scan_error.report().contains("eval::corrupt_value_blob"), "{}", scan_error.report()
    );

    let lookup_error = db
        .run_default("wanted[k] <- [[1]] ?[v] := wanted[k], *damaged{k, v}")
        .expect_err("a fully-bound point lookup must not swallow decode errors");
    assert!(
        lookup_error.report().contains("eval::corrupt_value_blob"), "{}", lookup_error.report()
    );

    let repaired = db.run_default("::repair_corrupt damaged").unwrap();
    assert_eq!(repaired.rows, vec![vec![whole(1)]]);
    assert!(db
        .run_default("?[k, v] := *damaged{k, v}")
        .unwrap()
        .rows
        .is_empty());
}

#[test]
fn corrupt_fts_postings_return_errors() {
    let mut db = DbInstance::new("sqlite", "", "").unwrap();
    db.run_default(":create docs {id: Int => body: String}")
        .unwrap();
    db.run_default(
        "::fts create docs:search { extractor: body, tokenizer: Simple, filters: [Lowercase] }",
    )
    .unwrap();
    db.run_default("?[id, body] <- [[1, 'needle text']] :put docs {id => body}")
        .unwrap();
    corrupt_all_index_values(&mut db, "docs", "search", false);

    let error = db
        .run_default("?[id] := ~docs:search{id | query: 'needle', k: 10}")
        .expect_err("a corrupt FTS posting must return an error without panicking");
    assert!(
        error.report().contains("eval::corrupt_value_blob"), "{}", error.report()
    );
}

#[test]
fn corrupt_hnsw_rows_return_errors() {
    let mut db = DbInstance::new("sqlite", "", "").unwrap();
    db.run_default(":create pts {id: Int => emb: <F32; 2>}")
        .unwrap();
    db.run_default(
        "::hnsw create pts:search { dim: 2, m: 8, dtype: F32, fields: [emb], \
         distance: L2, ef_construction: 32 }",
    )
    .unwrap();
    db.run_default(
        "?[id, emb] <- [[1, vec([1.0, 0.0])], [2, vec([0.0, 1.0])]] \
         :put pts {id => emb}",
    )
    .unwrap();
    corrupt_all_index_values(&mut db, "pts", "search", true);

    let error = db
        .run_default("?[id] := ~pts:search{id | query: vec([1.0, 0.0]), k: 10, ef: 32}")
        .expect_err("a corrupt HNSW row must return an error without panicking");
    assert!(
        error.report().contains("eval::corrupt_value_blob"), "{}", error.report()
    );
}

#[test]
fn txtime_cross_statement_conflicts_rejected() {
    let mut db = DbInstance::new("mem", "", "").unwrap();
    db.run_default(":create belief_ms {e, v: Validity, tt: TxTime => x: Int}")
        .unwrap();
    let err = db
        .run_default(
            "{?[e, v, x] <- [[9, [123, true], 1]] :put belief_ms {e, v => x}} \
             {?[e, v, x] <- [[9, [123, false], 1]] :put belief_ms {e, v => x}}",
        )
        .expect_err("cross-statement assert+retract must fail");
    assert!(
        err.report().contains("asserts AND retracts"), "{}", err.report()
    );

    db.run_default(":create a_ms {k, tt: TxTime => v: Int}")
        .unwrap();
    db.run_default("?[k, v] <- [[1, 10]] :put a_ms {k => v}")
        .unwrap();
    let err = db
        .run_default("{?[k] <- [[1]] :rm a_ms {k}} {?[k, v] <- [[1, 99]] :put a_ms {k => v}}")
        .expect_err("rm-then-put same key one tx must fail");
    assert!(
        err.report().contains("asserts AND retracts"), "{}", err.report()
    );

    let err = db
        .run_default("{?[k, v] <- [[5, 50]] :put a_ms {k => v}} {?[k] <- [[5]] :rm a_ms {k}}")
        .expect_err("put-then-rm same key one tx must fail");
    assert!(
        err.report().contains("written in the same transaction"), "{}", err.report()
    );
}

#[test]
fn txtime_delete_believed_deleted_errors() {
    let mut db = DbInstance::new("mem", "", "").unwrap();
    db.run_default(":create a_bd {k, tt: TxTime => v: Int}")
        .unwrap();
    db.run_default("?[k, v] <- [[1, 10]] :put a_bd {k => v}")
        .unwrap();
    db.run_default("?[k] <- [[1]] :rm a_bd {k}").unwrap();
    let err = db
        .run_default("?[k] <- [[1]] :delete a_bd {k}")
        .expect_err(":delete of believed-deleted key must fail");
    assert!(err.report().contains("believed-deleted"), "{}", err.report());
}

#[test]
fn txtime_remove_relation_with_pending_writes_rejected() {
    let mut db = DbInstance::new("mem", "", "").unwrap();
    db.run_default(":create zomb {k, tt: TxTime => v: Int}")
        .unwrap();
    let err = db
        .run_default("{?[k, v] <- [[9, 9]] :put zomb {k => v}} {::remove zomb}")
        .expect_err("::remove with pending tt writes must fail");
    assert!(
        err.report().contains("pending transaction-time writes"), "{}", err.report()
    );
}

#[test]
fn txtime_create_with_rows_rejects_tt_header() {
    let mut db = DbInstance::new("mem", "", "").unwrap();
    let err = db
        .run_default("?[k, tt, v] <- [[1, 123, 2]] :create cw2 {k, tt: TxTime => v: Int}")
        .expect_err("tt header on :create-with-rows must fail");
    assert!(err.report().contains("engine-assigned"), "{}", err.report());
}

#[test]
fn txtime_axis_selector_errors() {
    let mut db = DbInstance::new("mem", "", "").unwrap();
    db.run_default(":create a_asof {k, tt: TxTime => v: Int}")
        .unwrap();
    let err = db
        .run_default("?[k, v] := *a_asof[k, tt, v @ 'NOW']")
        .expect_err("bare @ on tt-only must error");
    let msg = err.report();
    assert!(
        msg.contains("no valid-time axis") || msg.contains("system-versioned"),
        "{msg}"
    );
    let err = db
        .run_default("?[k, v] := *a_asof[k, tt, v @ (vt: 'NOW')]")
        .expect_err("vt label on tt-only must error");
    assert!(err.report().contains("valid-time"), "{}", err.report());

    db.run_default(":create plain_r {k => v: Int}").unwrap();
    let err = db
        .run_default("?[k, v] := *plain_r[k, v @ (tt: 'NOW')]")
        .expect_err("tt label on plain must error");
    assert!(
        err.report().contains("no transaction-time axis"), "{}", err.report()
    );

    db.run_default(":create vt_r {k, v: Validity => x: Int}")
        .unwrap();
    let err = db
        .run_default("?[k, x] := *vt_r[k, v, x @ (tt: 'NOW')]")
        .expect_err("tt label on vt-only must error");
    assert!(
        err.report().contains("no transaction-time axis"), "{}", err.report()
    );
    db.run_default("?[k, x] := *vt_r[k, v, x @ (vt: 'NOW')]")
        .unwrap();

    db.run_default(":create bi_r {k, v: Validity, tt: TxTime => x: Int}")
        .unwrap();
    db.run_default("?[k, x] := *bi_r[k, v, tt, x @ (tt: 'NOW')]")
        .unwrap();
    db.run_default("?[k, x] := *bi_r[k, v, tt, x]").unwrap();

    let err = db
        .run_default("?[k, v] := *a_asof[k, tt, v @ (tt: 1, tt: 2)]")
        .expect_err("duplicate label must fail");
    assert!(
        err.report().contains("duplicate temporal axis"), "{}", err.report()
    );

    db.run_default("?[k, x] := *vt_r[k, v, x @ (vt: 'NOW')]")
        .unwrap();
}

#[test]
fn txtime_bitemporal_double_assert_lww() {
    let mut db = DbInstance::new("mem", "", "").unwrap();
    db.run_default(":create belief_lww {e, v: Validity, tt: TxTime => x: Int}")
        .unwrap();
    db.run_default(
        "?[e, v, x] <- [[1, [50, true], 10], [1, [50, true], 20]] :put belief_lww {e, v => x}",
    )
    .unwrap();
    let res = db
        .run_default("?[x] := *belief_lww[e, v, tt, x]")
        .unwrap()
        ;
    assert_eq!(res.rows.len(), 1);
}

#[test]
fn txtime_trigger_on_plain_relation_writes_into_tt_relation() {
    let mut db = DbInstance::new("mem", "", "").unwrap();
    db.run_default(":create plain_src {k => v: Int}").unwrap();
    db.run_default(":create audit_trail {k, tt: TxTime => v: Int}")
        .unwrap();
    db.run_default(
        "::set_triggers plain_src on put { ?[k, v] := _new[k, v] :put audit_trail {k => v} }",
    )
    .unwrap();
    db.run_default("?[k, v] <- [[7, 70]] :put plain_src {k => v}")
        .unwrap();
    let res = db
        .run_default("?[k, v] := *audit_trail[k, tt, v]")
        .unwrap()
        ;
    assert_eq!(res.rows, vec![vec![whole(7), whole(70)]]);
}

#[test]
fn txtime_abort_drops_rows_and_hwm_atomically() {
    let mut db = DbInstance::new("sqlite", "", "").unwrap();
    db.run_default(":create a_at {k, tt: TxTime => v: Int}")
        .unwrap();

    let err = db
        .run_default("{?[k, v] <- [[1, 10]] :put a_at {k => v}} {?[k] <- [[1]] :delete a_at {k}}");
    assert!(
        err.is_err(),
        "the :delete of a not-yet-committed key must fail the tx"
    );

    let res = db
        .run_default("?[k] := *a_at[k, tt, v]")
        .unwrap()
        ;
    assert_eq!(res.rows.len(), 0);
        assert_eq!(db.inner().store.read_persisted_tt_hwm(), None);
}

#[test]
fn txtime_negation_sees_current_state() {
    for engine in ["mem", "sqlite"] {
        let mut db = DbInstance::new(engine, "", "").unwrap();
        db.run_default(":create audit_n {k, tt: TxTime => v: Int}")
            .unwrap();
        db.run_default("?[k, v] <- [[1, 10], [2, 20]] :put audit_n {k => v}")
            .unwrap();
        db.run_default("?[k] <- [[2]] :rm audit_n {k}").unwrap();

        let res = db
            .run_default("r[k] <- [[1], [2], [3]] ?[k] := r[k], not *audit_n{k}")
            .unwrap()
            ;
        assert_eq!(res.rows, vec![vec![whole(2)], vec![whole(3)]], "{engine}");

        let res = db
            .run_default("r[k] <- [[1], [2]] ?[k] := r[k], not *audit_n{k @ (tt: 'NOW')}")
            .unwrap()
            ;
        assert_eq!(res.rows, vec![vec![whole(2)]], "{engine}");

        db.run_default("::explain { r[k] <- [[1]] ?[k] := r[k], not *audit_n{k} }")
            .unwrap();
    }
}

#[test]
fn vt_negation_with_selector_no_longer_panics() {
    let mut db = DbInstance::new("mem", "", "").unwrap();
    db.run_default(":create vt_n {k, v: Validity => x: Int}")
        .unwrap();
    db.run_default("?[k, v, x] <- [[1, 'ASSERT', 5]] :put vt_n {k, v => x}")
        .unwrap();
    let res = db
        .run_default("r[k] <- [[1], [2]] ?[k] := r[k], not *vt_n{k @ 'NOW'}")
        .unwrap()
        ;
    assert_eq!(res.rows, vec![vec![whole(2)]]);
}

#[test]
fn txtime_reads_on_sqlite_and_selector_forms() {
    let mut db = DbInstance::new("sqlite", "", "").unwrap();
    db.run_default(":create audit_f {k, tt: TxTime => v: Int}")
        .unwrap();
    db.run_default("?[k, v] <- [[1, 10]] :put audit_f {k => v}")
        .unwrap();
        let between = db.tt_clock().peek() + 1;
    db.run_default("?[k, v] <- [[1, 20]] :put audit_f {k => v}")
        .unwrap();

    let res = db
        .run_default(&format!("?[k, w] := *audit_f{{k, v: w @ (tt: {between})}}"))
        .unwrap()
        ;
    assert_eq!(res.rows, vec![vec![whole(1), whole(10)]]);

    let res = db
        .run_default("?[k, w] := *audit_f{k, v: w @ (tt: 'END')}")
        .unwrap()
        ;
    assert_eq!(res.rows, vec![vec![whole(1), whole(20)]]);

    let res = db
        .run_default("?[k, w] := *audit_f{k, v: w @ (tt: '2001-01-01')}")
        .unwrap()
        ;
    assert_eq!(res.rows.len(), 0);

    db.run_default(":create bi_f {k, v: Validity, tt: TxTime => x: Int}")
        .unwrap();
    db.run_default("?[k, x] := *bi_f[k, v, tt, x @ (tt: 'NOW', vt: 'NOW')]")
        .unwrap();

    let err = db
        .run_default(":create bad_null_vt {k, v: Validity?, tt: TxTime => x: Int}")
        .expect_err("nullable vt with tt must be rejected");
    assert!(err.report().contains("cannot be nullable"), "{}", err.report());
}

#[test]
fn bitemporal_four_quadrants() {
    for engine in ["mem", "sqlite"] {
        let (mut db, tts) = fixture(engine);
        let mut q = |vt: i64, tt: i64| -> Vec<Vec<DataValue>> {
            db.run_default(&format!("?[x] := *hist[k, v, t, x @ (vt: {vt}, tt: {tt})]"))
                .unwrap()
                .rows
        };
        assert_eq!(q(250, tts[3]), vec![vec![whole(3)]], "{engine}");
        assert_eq!(q(150, tts[3]), vec![vec![whole(1)]], "{engine}");
        assert_eq!(q(250, tts[1]), vec![vec![whole(2)]], "{engine}");
        assert_eq!(q(250, tts[0]), vec![vec![whole(1)]], "{engine}");
        assert_eq!(q(350, tts[3]).len(), 0, "{engine}");
        assert_eq!(q(350, tts[2]), vec![vec![whole(3)]], "{engine}");
        assert_eq!(q(50, tts[3]).len(), 0, "{engine}");
    }
}

#[test]
fn bitemporal_bare_scan_is_current_belief_per_group() {
    let (mut db, tts) = fixture("sqlite");
    let res = db
        .run_default("?[v, x] := *hist[k, v, t, x]")
        .unwrap()
        ;
    let rows = &res.rows;
    assert_eq!(rows.len(), 3, "{:?}", rows);
    assert_eq!(rows[0][0], DataValue::Validity(300, false));
    assert_eq!(rows[1][0], DataValue::Validity(200, true));
    assert_eq!(rows[1][1], whole(3), "correction wins in the bare scan: {rows:?}");
    assert_eq!(rows[2][0], DataValue::Validity(100, true));
    assert_eq!(rows[2][1], whole(1));

    let res = db
        .run_default(&format!("?[v, x] := *hist[k, v, t, x @ (tt: {})]", tts[1]))
        .unwrap()
        ;
    let rows = &res.rows;
    assert_eq!(rows.len(), 2, "{:?}", rows);
    assert_eq!(rows[0][1], whole(2));

    let res = db
        .run_default("?[x] := *hist[k, v, t, x @ 250]")
        .unwrap()
        ;
    assert_eq!(res.rows, vec![vec![whole(3)]]);
}

#[test]
fn bitemporal_cessation_across_runs_and_ties() {
    let mut db = DbInstance::new("mem", "", "").unwrap();
    db.run_default(":create hr {k, v: Validity, tt: TxTime => x: Int}")
        .unwrap();
    db.run_default("?[k, v, x] <- [[1, [100, true], 7]] :put hr {k, v => x}")
        .unwrap();
    db.run_default("?[k, v, x] <- [[1, [100, false], 0]] :put hr {k, v => x}")
        .unwrap();
    let res = db
        .run_default("?[x] := *hr[k, v, t, x @ (vt: 100)]")
        .unwrap()
        ;
    assert_eq!(
        res.rows.len(),
        0,
        "the later cessation must win across the is_assert-run boundary"
    );

    let mut db2 = DbInstance::new("mem", "", "").unwrap();
    db2.run_default(":create hr2 {k, v: Validity, tt: TxTime => x: Int}")
        .unwrap();
    db2.run_default("?[k, v, x] <- [[1, [100, false], 0]] :put hr2 {k, v => x}")
        .unwrap();
    db2.run_default("?[k, v, x] <- [[1, [100, true], 9]] :put hr2 {k, v => x}")
        .unwrap();
    let res = db2
        .run_default("?[x] := *hr2[k, v, t, x @ (vt: 100)]")
        .unwrap()
        ;
    assert_eq!(res.rows, vec![vec![whole(9)]]);
}

#[test]
fn bitemporal_repudiation_by_copy_and_chained_staleness() {
    let mut db = DbInstance::new("mem", "", "").unwrap();
    db.run_default(":create rep {k, v: Validity, tt: TxTime => x: Int}")
        .unwrap();
    db.run_default("?[k, v, x] <- [[1, [100, true], 100]] :put rep {k, v => x}")
        .unwrap();
    db.run_default("?[k, v, x] <- [[1, [300, true], 120]] :put rep {k, v => x}")
        .unwrap();
    db.run_default("?[k, v, x] <- [[1, [300, true], 100]] :put rep {k, v => x}")
        .unwrap();
    let res = db
        .run_default("?[x] := *rep[k, v, t, x @ (vt: 350)]")
        .unwrap()
        ;
    assert_eq!(res.rows, vec![vec![whole(100)]]);

    db.run_default("?[k, v, x] <- [[1, [100, true], 95]] :put rep {k, v => x}")
        .unwrap();
    let res = db
        .run_default("?[x] := *rep[k, v, t, x @ (vt: 350)]")
        .unwrap()
        ;
    assert_eq!(
        res.rows,
        vec![vec![whole(100)]],
        "copy is a snapshot"
    );
    let res = db
        .run_default("?[x] := *rep[k, v, t, x @ (vt: 150)]")
        .unwrap()
        ;
    assert_eq!(res.rows, vec![vec![whole(95)]]);
}

#[test]
fn bitemporal_negation_and_joins() {
    let (mut db, _tts) = fixture("sqlite");
    let res = db
        .run_default("r[k] <- [[1], [2]] ?[k] := r[k], not *hist{k @ (vt: 250)}")
        .unwrap()
        ;
    assert_eq!(res.rows, vec![vec![whole(2)]]);
    let res = db
        .run_default("r[k] <- [[1]] ?[k, x] := r[k], *hist{k, x @ (vt: 250)}")
        .unwrap()
        ;
    assert_eq!(res.rows, vec![vec![whole(1), whole(3)]]);
}

#[test]
fn as_of_pins_the_whole_query() {
    let (mut db, tts) = fixture("sqlite");
    db.run_default(":create audit_a {k, tt: TxTime => v: Int}")
        .unwrap();
    db.run_default("?[k, v] <- [[1, 10]] :put audit_a {k => v}")
        .unwrap();
    let after_audit = db.tt_clock().peek();
    db.run_default("?[k, v] <- [[1, 20]] :put audit_a {k => v}")
        .unwrap();

    db.run_default(":create plain_a {k => v: Int}").unwrap();
    db.run_default("?[k, v] <- [[1, 5]] :put plain_a {k => v}")
        .unwrap();
    let res = db
        .run_default(&format!(
            "?[x, w, p] := *hist[k, v, t, x @ (vt: 250)], *audit_a[k2, t2, w], *plain_a[k3, p] \
             :as_of {}",
            tts[1].max(after_audit)
        ))
        .unwrap()
        ;
    assert_eq!(res.rows, vec![vec![whole(3), whole(10), whole(5)]]);

    let res = db
        .run_default(&format!(
            "?[w] := *audit_a[k, t, w @ (tt: 'NOW')] :as_of {after_audit}"
        ))
        .unwrap()
        ;
    assert_eq!(res.rows, vec![vec![whole(20)]]);

    let err = db
        .run_default("?[p] := *plain_a[k, p] :as_of 'NOW'")
        .expect_err(":as_of without tt relations must fail");
    let msg = err.report()
        .split_whitespace()
        .collect::<Vec<_>>()
        .join(" ");
    assert!(msg.contains("no transaction-time-stamped"), "{msg}");
}

#[test]
fn as_of_minimal_probe() {
    let mut db = DbInstance::new("mem", "", "").unwrap();
    db.run_default(":create audit_p2 {k, tt: TxTime => v: Int}")
        .unwrap();
    db.run_default("?[k, v] <- [[1, 10]] :put audit_p2 {k => v}")
        .unwrap();
    db.run_default("?[w] := *audit_p2[k, t, w] :as_of 'NOW'")
        .unwrap();
    db.run_default("?[w] := *audit_p2[k, t, w @ (tt: 'NOW')] :as_of 'NOW'")
        .unwrap();
}

#[test]
fn temporal_join_columns_use_materialized_join() {
    for engine in ["mem", "sqlite"] {
        let (mut db, _tts) = fixture(engine);
        let res = db
            .run_default(
                "l[k, v] := *hist[k, v, t, x @ (vt: 120)] \
                 ?[k, x2] := l[k, v], *hist[k, v, t2, x2 @ (vt: 250)]",
            )
            .unwrap()
            ;
        assert_eq!(res.rows.len(), 0, "{engine}");

        let res = db
            .run_default(
                "l[k, v] := *hist[k, v, t, x @ (vt: 120)] \
                 ?[k] := l[k, v], not *hist{k, v @ (vt: 250)}",
            )
            .unwrap()
            ;
        assert_eq!(res.rows, vec![vec![whole(1)]], "{engine}");

        let res = db
            .run_default(
                "l[k, v, t, x] := *hist[k, v, t, x0 @ (vt: 250)], x = x0 - 1 \
                 ?[k, x] := l[k, v, t, x], *hist[k, v, t, x @ (vt: 250)]",
            )
            .unwrap()
            ;
        assert_eq!(res.rows.len(), 0, "{engine}");
    }
}

#[test]
fn vt_only_temporal_join_columns_fixed_too() {
    for engine in ["mem", "sqlite"] {
        let mut db = DbInstance::new(engine, "", "").unwrap();
        db.run_default(":create vtx {k, v: Validity => x: Int}")
            .unwrap();
        db.run_default("?[k, v, x] <- [[1, [100, true], 7]] :put vtx {k, v => x}")
            .unwrap();
        db.run_default("?[k, v, x] <- [[1, [150, false], 0]] :put vtx {k, v => x}")
            .unwrap();
        let res = db
            .run_default("l[k, v] := *vtx[k, v, x @ 120] ?[k, x2] := l[k, v], *vtx[k, v, x2 @ 250]")
            .unwrap()
            ;
        assert_eq!(res.rows.len(), 0, "{engine}");
    }
}

#[test]
fn bitemporal_migration_invariant_comparative() {
    let mut db = DbInstance::new("mem", "", "").unwrap();
    db.run_default(":create m_vt {k, v: Validity => x: Int}")
        .unwrap();
    db.run_default(":create m_bt {k, v: Validity, tt: TxTime => x: Int}")
        .unwrap();
    for rel in ["m_vt", "m_bt"] {
        db.run_default(&format!(
            "?[k, v, x] <- [[1, [100, true], 1], [2, [100, true], 5]] :put {rel} {{k, v => x}}"
        ))
        .unwrap();
        db.run_default(&format!(
            "?[k, v, x] <- [[1, [200, true], 2]] :put {rel} {{k, v => x}}"
        ))
        .unwrap();
        db.run_default(&format!(
            "?[k, v, x] <- [[2, [300, false], 0]] :put {rel} {{k, v => x}}"
        ))
        .unwrap();
    }
    let a = db
        .run_default("?[k, v, x] := *m_vt[k, v, x]")
        .unwrap()
        ;
    let b = db
        .run_default("?[k, v, x] := *m_bt[k, v, t, x]")
        .unwrap()
        ;
    assert_eq!(a.rows, b.rows, "bare scan must match the vt twin");
    for vt in [50, 100, 150, 200, 250, 300, 350] {
        let a = db
            .run_default(&format!("?[k, x] := *m_vt[k, v, x @ {vt}]"))
            .unwrap()
            ;
        let b = db
            .run_default(&format!("?[k, x] := *m_bt[k, v, t, x @ {vt}]"))
            .unwrap()
            ;
        assert_eq!(a.rows, b.rows, "@{vt} must match the vt twin");
    }
}

#[test]
fn vt_equal_ts_assert_shadows_retract_pinned() {
    let mut db = DbInstance::new("mem", "", "").unwrap();
    db.run_default(":create eq_vt {k, v: Validity => x: Int}")
        .unwrap();
    db.run_default("?[k, v, x] <- [[1, [100, true], 7]] :put eq_vt {k, v => x}")
        .unwrap();
    db.run_default("?[k, v, x] <- [[1, [100, false], 0]] :put eq_vt {k, v => x}")
        .unwrap();
    let res = db
        .run_default("?[x] := *eq_vt[k, v, x @ 100]")
        .unwrap()
        ;
    assert_eq!(res.rows, vec![vec![whole(7)]]);
}

#[test]
fn tt_insert_update_ensure() {
    let mut db = DbInstance::new("mem", "", "").unwrap();
    db.run_default(":create a4c {k, tt: TxTime => v: Int, w: Int default 0}")
        .unwrap();

    db.run_default("?[k, v] <- [[1, 10]] :insert a4c {k => v}")
        .unwrap();
    let err = db
        .run_default("?[k, v] <- [[1, 11]] :insert a4c {k => v}")
        .expect_err("insert existing must fail");
    assert!(err.report().contains("exists"), "{}", err.report());
    db.run_default("?[k] <- [[1]] :rm a4c {k}").unwrap();
    db.run_default("?[k, v] <- [[1, 12]] :insert a4c {k => v}")
        .unwrap();
    let res = db
        .run_default("?[v] := *a4c[k, tt, v, w]")
        .unwrap()
        ;
    assert_eq!(res.rows, vec![vec![whole(12)]]);
    let err = db
        .run_default(
            "{?[k, v] <- [[7, 1]] :put a4c {k => v}} {?[k, v] <- [[7, 2]] :insert a4c {k => v}}",
        )
        .expect_err("insert-after-put same tx must fail");
    assert!(err.report().contains("already written"), "{}", err.report());

    db.run_default("?[k, w] <- [[1, 5]] :update a4c {k => w}")
        .unwrap();
    let res = db
        .run_default("?[v, w] := *a4c[k, tt, v, w]")
        .unwrap()
        ;
    assert_eq!(
        res.rows,
        vec![vec![whole(12), whole(5)]],
        "v kept, w updated"
    );
    let err = db
        .run_default("?[k, w] <- [[99, 5]] :update a4c {k => w}")
        .expect_err("update missing must fail");
    assert!(err.report().contains("does not exist"), "{}", err.report());

    db.run_default("?[k, v] <- [[1, 12]] :ensure a4c {k => v}")
        .unwrap();
    let err = db
        .run_default("?[k, v] <- [[1, 999]] :ensure a4c {k => v}")
        .expect_err("ensure mismatch must fail");
    assert!(err.report().contains("mismatch"), "{}", err.report());
    db.run_default("?[k, v] <- [[404, 0]] :ensure_not a4c {k => v}")
        .unwrap();
    let err = db
        .run_default("?[k, v] <- [[1, 0]] :ensure_not a4c {k => v}")
        .expect_err("ensure_not existing must fail");
    assert!(err.report().contains("exists"), "{}", err.report());
}

#[test]
fn bitemporal_rm_remap_cessation() {
    let (mut db, _tts) = fixture("sqlite");
    db.run_default("?[k, v] <- [[1, [400, true]]] :rm hist {k, v}")
        .unwrap();
    db.run_default("?[k, v] <- [[1, [250, true]]] :rm hist {k, v}")
        .unwrap();
    let res = db
        .run_default("?[x] := *hist[k, v, t, x @ (vt: 260)]")
        .unwrap()
        ;
    assert_eq!(res.rows.len(), 0, "ceased at 250");
    let res = db
        .run_default("?[x] := *hist[k, v, t, x @ (vt: 240)]")
        .unwrap()
        ;
    assert_eq!(res.rows, vec![vec![whole(3)]]);
    let err = db
        .run_default("?[k, v] <- [[1, [50, true]]] :delete hist {k, v}")
        .expect_err("delete with no belief must fail");
    assert!(err.report().contains("no belief"), "{}", err.report());

    db.run_default(":create bi4c {k, v: Validity, tt: TxTime => x: Int}")
        .unwrap();
    db.run_default("?[k, v, x] <- [[1, [100, true], 5]] :put bi4c {k, v => x}")
        .unwrap();
    let err = db
        .run_default("?[k, v, x] <- [[1, [200, true], 6]] :insert bi4c {k, v => x}")
        .expect_err("bitemporal insert on a key with recorded beliefs must fail");
    assert!(err.report().contains("recorded beliefs"), "{}", err.report());
    db.run_default("?[k, x] <- [[1, 9]] :update bi4c {k => x}")
        .unwrap();
    let res = db
        .run_default("?[v, x] := *bi4c[k, v, t, x @ (vt: 150)]")
        .unwrap()
        ;
    assert_eq!(res.rows, vec![vec![DataValue::Validity(100, true), whole(9)]]);
}

#[test]
fn tt_4c_review_pins() {
    let mut db = DbInstance::new("mem", "", "").unwrap();
    db.run_default(":create pin4c {k, tt: TxTime => v: Int}")
        .unwrap();
    let err = db
        .run_default("?[k, v] <- [[7, 1], [7, 2]] :insert pin4c {k => v}")
        .expect_err("duplicate in-statement insert must fail");
    assert!(err.report().contains("duplicate key"), "{}", err.report());

    db.run_default("?[k, v] <- [[1, 10]] :put pin4c {k => v}")
        .unwrap();
    let err = db
        .run_default("?[k, tt, v] <- [[1, 5, 10]] :ensure pin4c {k, tt => v}")
        .expect_err("tt-bound ensure must fail");
    assert!(err.report().contains("engine-assigned"), "{}", err.report());

    let err = db
        .run_default(
            "{?[k, v] <- [[1, 99]] :put pin4c {k => v}} {?[k, v] <- [[1, 99]] :ensure pin4c {k => v}}",
        )
        .expect_err("ensure of same-tx rewrite must fail");
    assert!(err.report().contains("ambiguous"), "{}", err.report());

    db.run_default(":create pin_bi {k, v: Validity, tt: TxTime => x: Int}")
        .unwrap();
    db.run_default("?[k, v, x] <- [[1, [100, true], 5]] :put pin_bi {k, v => x}")
        .unwrap();
    let err = db
        .run_default("?[k, v, x] <- [[1, [100, true], 5]] :ensure pin_bi {k, v => x}")
        .expect_err("vt-bound ensure must fail");
    assert!(err.report().contains("CURRENT belief"), "{}", err.report());

    let mut db2 = DbInstance::new("mem", "", "").unwrap();
    db2.run_default(":create pin_c {k, v: Validity, tt: TxTime => x: Int}")
        .unwrap();
    db2.run_default("?[k, v, x] <- [[1, [100, true], 5]] :put pin_c {k, v => x}")
        .unwrap();
        let before = db2.tt_clock().peek() + 1;
    db2.run_default("?[k, x] <- [[1, 9]] :update pin_c {k => x}")
        .unwrap();
    let res = db2
        .run_default(&format!(
            "?[x] := *pin_c[k, v, t, x @ (vt: 150, tt: {before})]"
        ))
        .unwrap()
        ;
    assert_eq!(
        res.rows,
        vec![vec![whole(5)]],
        "tt-past shows pre-update"
    );
    db2.run_default("?[k, v] <- [[1, [200, true]]] :rm pin_c {k, v}")
        .unwrap();
    let err = db2
        .run_default("?[k, x] <- [[1, 11]] :update pin_c {k => x}")
        .expect_err("update after cessation must fail");
    assert!(err.report().contains("does not exist"), "{}", err.report());
}

#[test]
fn history_sysop() {
    let (mut db, tts) = fixture("sqlite");
    let res = db.run_default("::history hist [[1]]").unwrap();
    let rows = &res.rows;
    assert_eq!(rows.len(), 4, "{:?}", rows);
    assert_eq!(
        res.headers,
        strings(&["k", "vt_ts", "op", "tt", "x"])
    );
    assert_eq!(rows[0][1], whole(300));
    assert_eq!(rows[0][2], text("retract"));
    assert_eq!(rows[1][1], whole(200));
    assert_eq!(rows[1][2], text("assert"));
    assert!(num(&rows[1][3]) <= tts[2] && num(&rows[1][3]) > tts[1]);
    let res = db
        .run_default("::history hist [[1]] 2 1")
        .unwrap()
        ;
    assert_eq!(res.rows.len(), 2);
    db.run_default(":create a5 {k, tt: TxTime => v: Int}")
        .unwrap();
    db.run_default("?[k, v] <- [[9, 1]] :put a5 {k => v}")
        .unwrap();
    db.run_default("?[k] <- [[9]] :rm a5 {k}").unwrap();
    let res = db.run_default("::history a5 [[9]]").unwrap();
    assert_eq!(res.headers, strings(&["k", "op", "tt", "v"]));
    let rows = &res.rows;
    assert_eq!(rows.len(), 2);
    assert_eq!(rows[0][1], text("retract"));
    db.run_default(":create plain5 {k => v: Int}").unwrap();
    let err = db
        .run_default("::history plain5 [[1]]")
        .expect_err("must fail");
    assert!(
        err.report().contains("requires a TxTime relation"), "{}", err.report()
    );
}

#[test]
fn history_gc_sysop_and_floor() {
    let (mut db, tts) = fixture("sqlite");
    let cutoff = tts[2] + 1;
    let res = db
        .run_default(&format!("::history_gc hist {cutoff}"))
        .unwrap()
        ;
    assert_eq!(res.rows[0][0], whole(1), "exactly the superseded row dropped");
    let res = db.run_default("::history hist [[1]]").unwrap();
    assert_eq!(res.rows.len(), 3);
    let res = db
        .run_default(&format!(
            "?[x] := *hist[k, v, t, x @ (vt: 250, tt: {cutoff})]"
        ))
        .unwrap()
        ;
    assert_eq!(res.rows, vec![vec![whole(3)]]);
    let err = db
        .run_default(&format!(
            "?[x] := *hist[k, v, t, x @ (vt: 250, tt: {})]",
            tts[0]
        ))
        .expect_err("below-floor read must fail");
    assert!(err.report().contains("gc floor"), "{}", err.report());
    let err = db
        .run_script(
            &format!("::history_gc hist {cutoff}"),
            &Params::new(),
            ScriptMutability::Immutable,
        )
        .expect_err("gc in read-only must fail");
    assert!(err.report().contains("read-only"), "{}", err.report());
}

#[test]
fn evict_sysop() {
    let (mut db, _tts) = fixture("sqlite");
    let res = db.run_default("::evict hist [[1]]").unwrap();
    assert_eq!(res.rows[0][2], whole(4), "all four records hard-deleted");
    let res = db.run_default("::history hist [[1]]").unwrap();
    assert_eq!(res.rows.len(), 0);
    let res = db
        .run_default("?[r, key, n] := *mnestic_evict_audit[r, key, tt, n]")
        .unwrap()
        ;
    let rows = &res.rows;
    assert_eq!(rows.len(), 1);
    assert_eq!(rows[0][0], text("hist"));
    assert_eq!(rows[0][2], whole(4));
    let marker = words(&rows[0][1]);
    assert!(
        !marker.contains('1') || marker.len() == 36,
        "salted uuid marker: {marker}"
    );
    db.run_default("?[k, v, x] <- [[2, [100, true], 5]] :put hist {k, v => x}")
        .unwrap();
    db.run_default("::evict hist [[2]] unredacted").unwrap();
    let res = db
        .run_default("?[key] := *mnestic_evict_audit[r, key, tt, n], n == 1")
        .unwrap()
        ;
    assert!(words(&res.rows[0][0]).contains('2'), "{:?}", res.rows);
    let err = db
        .run_script(
            "::evict hist [[2]]",
            &Params::new(),
            ScriptMutability::Immutable,
        )
        .expect_err("evict in read-only must fail");
    assert!(err.report().contains("read-only"), "{}", err.report());
}

#[test]
fn step5_review_pins() {
    let (mut db, tts) = fixture("sqlite");

    let err = db
        .run_default(
            "{?[k, v, x] <- [[1, [500, true], 9]] :put hist {k, v => x}} {::evict hist [[1]]}",
        )
        .expect_err("evict with pending tt writes must fail");
    assert!(
        err.report().contains("pending transaction-time writes"), "{}", err.report()
    );
    let res = db.run_default("::history hist [[1]]").unwrap();
    assert_eq!(
        res.rows.len(),
        4,
        "nothing committed"
    );

    let res = db.run_default("::history_gc hist 1").unwrap();
    assert_eq!(res.rows[0][0], whole(0));
    assert_eq!(res.rows[0][1], DataValue::Null);
    let res = db
        .run_default(&format!(
            "?[x] := *hist[k, v, t, x @ (vt: 250, tt: {})]",
            tts[0]
        ))
        .unwrap()
        ;
    assert_eq!(res.rows, vec![vec![whole(1)]]);

    let err = db
        .run_default("::history_gc hist 99999999999999999")
        .expect_err("future cutoff must fail");
    assert!(err.report().contains("future"), "{}", err.report());

    let cutoff = tts[2] + 1;
    let res = db
        .run_default(&format!("::history_gc hist {cutoff}"))
        .unwrap()
        ;
    assert_eq!(res.rows[0][0], whole(1));
    assert_eq!(num(&res.rows[0][1]), cutoff);
    let res = db.run_default("::history_gc hist 5").unwrap();
    assert_eq!(res.rows[0][0], whole(0));
    assert_eq!(
        num(&res.rows[0][1]),
        cutoff,
        "floor not lowered"
    );

    db.run_default(&format!("{{::history_gc hist {cutoff}}}"))
        .unwrap();

    db.run_default("::access_level read_only hist").unwrap();
    let err = db
        .run_default("::evict hist [[1]]")
        .expect_err("read_only evict");
    assert!(
        err.report().contains("Insufficient access level"), "{}", err.report()
    );
    let err = db
        .run_default(&format!("::history_gc hist {cutoff}"))
        .expect_err("read_only gc");
    assert!(
        err.report().contains("Insufficient access level"), "{}", err.report()
    );
    db.run_default("::access_level hidden hist").unwrap();
    let err = db
        .run_default("::history hist [[1]]")
        .expect_err("hidden history");
    assert!(
        err.report().contains("Insufficient access level"), "{}", err.report()
    );
    db.run_default("::access_level normal hist").unwrap();

    let res = db
        .run_default("::evict hist [[1], [1]]")
        .unwrap()
        ;
    assert_eq!(res.rows.len(), 1);
    assert_eq!(res.rows[0][2], whole(3));
    let res = db
        .run_default("?[n] := *mnestic_evict_audit[r, key, tt, n]")
        .unwrap()
        ;
    assert_eq!(res.rows, vec![vec![whole(3)]]);

    db.run_default(":create typed5 {k: Int, tt: TxTime => v: Int}")
        .unwrap();
    db.run_default("?[k, v] <- [[7, 1], [8, 2]] :put typed5 {k => v}")
        .unwrap();
    assert!(
        db.run_default("::evict typed5 [['7']]").is_err(),
        "mistyped key must be loud"
    );

    let res = db
        .run_default("::history typed5 [[8], [7]]")
        .unwrap()
        ;
    assert_eq!(res.rows[0][0], whole(7), "key-asc order");
    assert!(
        db.run_default("::history typed5 [[7]] 2 -1").is_err(),
        "negative offset must not parse"
    );

    db.run_default(":create clash5 {k, tt: TxTime => op: String}")
        .unwrap();
    let err = db
        .run_default("::history clash5 [[1]]")
        .expect_err("header collision");
    assert!(err.report().contains("collides"), "{}", err.report());

    let (mut db2, _tts2) = fixture("sqlite");
    db2.run_default(":create mnestic_evict_audit {a => b: Float}")
        .unwrap();
    let err = db2
        .run_default("::evict hist [[1]]")
        .expect_err("reserved name");
    assert!(err.report().contains("reserved"), "{}", err.report());
}

#[test]
fn reconcile_tt_only_belief_revision() {
    let mut db = DbInstance::new("mem", "", "").unwrap();
    db.run_default(":create facts {k: Int, tt: TxTime => v: Int}")
        .unwrap();
    db.run_default("?[k, v] <- [[1, 10], [2, 20], [3, 30]] :reconcile facts {k => v}")
        .unwrap();
    let res = db
        .run_default("?[k, v] := *facts[k, t, v]")
        .unwrap()
        ;
    assert_eq!(
        res.rows,
        vec![vec![whole(1), whole(10)], vec![whole(2), whole(20)], vec![whole(3), whole(30)]],
        "{res:?}"
    );
    db.run_default("?[k, v] <- [[1, 10], [2, 25], [4, 40]] :reconcile facts {k => v}")
        .unwrap();
    let res = db
        .run_default("?[k, v] := *facts[k, t, v]")
        .unwrap()
        ;
    assert_eq!(
        res.rows,
        vec![vec![whole(1), whole(10)], vec![whole(2), whole(25)], vec![whole(4), whole(40)]],
        "{res:?}"
    );
    let res = db.run_default("::history facts [[1]]").unwrap();
    assert_eq!(res.rows.len(), 1, "{:?}", res.rows);
    let res = db.run_default("::history facts [[3]]").unwrap();
    let rows = &res.rows;
    assert_eq!(rows.len(), 2, "{:?}", rows);
    assert_eq!(rows[0][1], text("retract"));
    let first_tt = num(&rows[1][2]);
    let res = db
        .run_default(&format!("?[v] := *facts[3, t, v @ (tt: {first_tt})]"))
        .unwrap()
        ;
    assert_eq!(res.rows, vec![vec![whole(30)]], "{:?}", res.rows);
    db.run_default("?[k, v] <- [[1, 10], [2, 25], [4, 40]] :reconcile facts {k => v}")
        .unwrap();
    let res = db.run_default("::history facts [[2]]").unwrap();
    assert_eq!(res.rows.len(), 2, "{:?}", res.rows);
}

#[test]
fn reconcile_bitemporal_cessations() {
    let mut db = DbInstance::new("mem", "", "").unwrap();
    db.run_default(":create bt {k: Int, vld: Validity, tt: TxTime => v: Int}")
        .unwrap();
    db.run_default(
        "?[k, vld, v] <- [[1, [100, true], 7], [1, [200, true], 8]] :reconcile bt {k, vld => v}",
    )
    .unwrap();
    db.run_default("?[k, vld, v] <- [[1, [100, true], 9]] :reconcile bt {k, vld => v}")
        .unwrap();
    let res = db
        .run_default("?[x] := *bt[k, v, t, x @ (vt: 150)]")
        .unwrap()
        ;
    assert_eq!(res.rows, vec![vec![whole(9)]], "corrected: {res:?}");
    let res = db
        .run_default("?[x] := *bt[k, v, t, x @ (vt: 250)]")
        .unwrap()
        ;
    assert_eq!(res.rows.len(), 0, "{:?}", res.rows);
    let res = db.run_default("::history bt [[1]]").unwrap();
    let rows = &res.rows;
    let first_tt = rows.iter().map(|r| num(&r[3])).min().unwrap();
    let res = db
        .run_default(&format!(
            "?[x] := *bt[k, v, t, x @ (vt: 250, tt: {first_tt})]"
        ))
        .unwrap()
        ;
    assert_eq!(res.rows, vec![vec![whole(8)]], "{:?}", res.rows);
}

#[test]
fn reconcile_tms_retraction_end_to_end() {
    let mut db = DbInstance::new("mem", "", "").unwrap();
    db.run_default(":create base {f: Int, t: Int, tt: TxTime => w: Float}")
        .unwrap();
    db.run_default("?[f, t, w] <- [[1, 2, 1.0], [2, 3, 1.0], [1, 3, 3.0]] :put base {f, t => w}")
        .unwrap();
    db.run_default(":create paths {dst: Int, pack, tt: TxTime => }")
        .unwrap();
    let derive = r#"
        edge[f, t, w] := *base[f, t, ttx, w]
        sp[t, min_cost_k(pack, 2)] := t = 1, pack = [[1], 0.0]
        sp[t, min_cost_k(pack, 2)] := sp[m, p], edge[m, t, w],
                                      pack = [concat(first(p), [t]), last(p) + w]
        ?[dst, pack] := sp[dst, pack]
        :reconcile paths {dst, pack}
    "#;
    db.run_default(derive).unwrap();
    let res = db
        .run_default("?[pack] := *paths[3, pack, ttx]")
        .unwrap()
        ;
    assert_eq!(
        res.rows,
        vec![vec![list(vec![list(vec![whole(1), whole(2), whole(3)]), frac(2.0)])], vec![list(vec![list(vec![whole(1), whole(3)]), frac(3.0)])]],
        "{res:?}"
    );
    db.run_default("?[f, t] <- [[2, 3]] :rm base {f, t}")
        .unwrap();
    db.run_default(derive).unwrap();
    let res = db
        .run_default("?[pack] := *paths[3, pack, ttx]")
        .unwrap()
        ;
    assert_eq!(res.rows, vec![vec![list(vec![list(vec![whole(1), whole(3)]), frac(3.0)])]], "{:?}", res.rows);
    let res = db
        .run_default("::history paths [[3, [[1, 2, 3], 2.0]]]")
        .unwrap()
        ;
    let rows = &res.rows;
    assert_eq!(rows.len(), 2, "assert then retract: {rows:?}");
    let first_tt = num(&rows[1][3]);
    let res = db
        .run_default(&format!(
            "?[pack] := *paths[3, pack, ttx @ (tt: {first_tt})]"
        ))
        .unwrap()
        ;
    assert_eq!(
        res.rows,
        vec![vec![list(vec![list(vec![whole(1), whole(2), whole(3)]), frac(2.0)])], vec![list(vec![list(vec![whole(1), whole(3)]), frac(3.0)])]],
        "the pre-retraction annotated belief, with proofs: {res:?}"
    );
}

#[test]
fn reconcile_validation() {
    let mut db = DbInstance::new("mem", "", "").unwrap();
    db.run_default(":create plain_r {k: Int => v: Int}")
        .unwrap();
    let err = db
        .run_default("?[k, v] <- [[1, 1]] :reconcile plain_r {k => v}")
        .expect_err("plain relation");
    assert!(
        err.report().contains("requires a TxTime relation"), "{}", err.report()
    );
    db.run_default(":create rc {k: Int, tt: TxTime => v: Int}")
        .unwrap();
    let err = db
        .run_default("?[k, v] <- [[1, 1], [1, 2]] :reconcile rc {k => v}")
        .expect_err("conflicting rows");
    assert!(err.report().contains("conflicting rows"), "{}", err.report());
    let err = db
        .run_default(
            "{?[k, v] <- [[9, 9]] :put rc {k => v}} {?[k, v] <- [[1, 1]] :reconcile rc {k => v}}",
        )
        .expect_err("pending write");
    assert!(err.report().contains("only"), "{}", err.report());
    db.run_default(":create rcb {k: Int, vld: Validity, tt: TxTime => v: Int}")
        .unwrap();
    let err = db
        .run_default("?[k, vld, v] <- [[1, [100, false], 1]] :reconcile rcb {k, vld => v}")
        .expect_err("retract-flag row");
    assert!(err.report().contains("declare beliefs"), "{}", err.report());
    db.run_default("?[k, v] <- [[1, 1], [2, 2]] :reconcile rc {k => v}")
        .unwrap();
    db.run_default("?[k, v] <- [] :reconcile rc {k => v}")
        .unwrap();
    let res = db
        .run_default("?[k, v] := *rc[k, t, v]")
        .unwrap()
        ;
    assert_eq!(res.rows.len(), 0, "{:?}", res.rows);

    db.run_default("?[k, v] <- [[1, 10]] :reconcile rc {k => v}")
        .unwrap();
    for later in [
        "{?[k, v] <- [[1, 10]] :reconcile rc {k => v}} {?[k, v] <- [[3, 30]] :put rc {k => v}}",
        "{?[k, v] <- [[1, 10]] :reconcile rc {k => v}} {?[k] <- [[1]] :rm rc {k}}",
        "{?[k, v] <- [[1, 10]] :reconcile rc {k => v}} {?[k, v] <- [[2, 20]] :reconcile rc {k => v}}",
    ] {
        let err = db.run_default(later).expect_err("write after reconcile");
        assert!(err.report().contains("reconcile"), "{later}: {err:?}");
    }
    let res = db
        .run_default("{?[k, v] <- [[1, 99]] :reconcile rc {k => v}} {?[k, v] := *rc[k, t, v]}")
        .unwrap()
        ;
    assert_eq!(res.rows, vec![vec![whole(1), whole(10)]], "{:?}", res.rows);
    let res = db
        .run_default("?[k, v] := *rc[k, t, v]")
        .unwrap()
        ;
    assert_eq!(res.rows, vec![vec![whole(1), whole(99)]], "{:?}", res.rows);
}

#[test]
fn bitemporal_reads_on_rocksdb() {
    let (mut db, tts) = fixture("rocksdb");
    let mut q = |vt: i64, tt: i64| {
        db.run_default(&format!("?[x] := *hist[k, v, t, x @ (vt: {vt}, tt: {tt})]"))
            .unwrap()
            .rows
    };
    assert_eq!(q(250, tts[3]), vec![vec![whole(3)]]);
    assert_eq!(q(150, tts[3]), vec![vec![whole(1)]]);
    assert_eq!(q(250, tts[1]), vec![vec![whole(2)]]);
    assert_eq!(q(250, tts[0]), vec![vec![whole(1)]]);
    assert_eq!(q(350, tts[3]).len(), 0);
    assert_eq!(q(350, tts[2]), vec![vec![whole(3)]]);
    assert_eq!(q(50, tts[3]).len(), 0);

    let rows = db
        .run_default("?[v, x] := *hist[k, v, t, x]")
        .unwrap()
        .rows;
    assert_eq!(rows.len(), 3, "{rows:?}");
    assert_eq!(rows[0][0], DataValue::Validity(300, false));
    assert_eq!(rows[1][1], whole(3), "correction wins in the bare scan");
    assert_eq!(rows[2][1], whole(1));

    let res = db.run_default("::history hist [[1]]").unwrap();
    assert_eq!(res.rows.len(), 4);
}
