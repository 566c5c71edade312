//! For each kind of error a script or call that gives it.
use mnestic::backup::Import;
use mnestic::db::{NamedRows, Params, ScriptMutability};
use mnestic::error::ErrKind;
use mnestic::instance::DbInstance;
use mnestic::list::List;
use mnestic::store::Store;
use mnestic::value::DataValue;

/// The kind and the subject of the error of the last of some scripts.
fn refused(scripts: &[&str]) -> (ErrKind, String) {
    let mut db = DbInstance::default();
    for s in &scripts[..scripts.len() - 1] {
        if let Err(e) = db.run_default(s) {
            panic!("{}: {}", s, e.report());
        }
    }
    let last = scripts[scripts.len() - 1];
    match db.run_default(last) {
        Ok(rows) => panic!("{}: {:?}", last, rows),
        Err(e) => (e.kind, e.subject),
    }
}

fn kind(scripts: &[&str]) -> ErrKind {
    refused(scripts).0
}

#[test]
fn malformed_scripts() {
    assert_eq!(kind(&["?[a] <- [[\"open]]"]), ErrKind::Lex);
    assert_eq!(kind(&["?[a] <- [[1]"]), ErrKind::Parse);
    assert_eq!(kind(&["?[a] <- $data"]), ErrKind::MissingParam);
    assert_eq!(
        refused(&["?[a] := a = no_such_thing(1)"]),
        (ErrKind::UnknownFunction, "no_such_thing".to_string())
    );
    assert_eq!(
        kind(&[
            ":create r {k, v: Validity, tt: TxTime => x}",
            "?[k] := *r{k @ (vt: 1, vt: 2)}"
        ]),
        ErrKind::DuplicateAxis
    );
}

#[test]
fn expressions_that_have_no_value() {
    assert_eq!(kind(&["?[a] := a = 1 + 'x'"]), ErrKind::TypeMismatch);
    assert_eq!(kind(&["?[a] := a = 9223372036854775807 + 1"]), ErrKind::Overflow);
    assert_eq!(kind(&["?[a] := a = 1 / 0"]), ErrKind::DivisionByZero);
    assert_eq!(kind(&["?[a] := a = 1 % 0"]), ErrKind::DivisionByZero);
    assert_eq!(
        refused(&["?[a, b] := a = 1"]),
        (ErrKind::UnboundVariable, "b".to_string())
    );
    assert_eq!(kind(&["?[a] := a = 1, a + 1"]), ErrKind::NotBoolean);
    assert_eq!(kind(&["?[a] := a in 1"]), ErrKind::NotList);
}

#[test]
fn rules_that_cannot_be_evaluated() {
    assert_eq!(
        refused(&["?[a] := missing[a]"]),
        (ErrKind::UnknownRule, "missing".to_string())
    );
    assert_eq!(kind(&["r[a] <- [[1]] ?[a] := r[a, a]"]), ErrKind::ArityMismatch);
    assert_eq!(kind(&["r[a] <- [[1]] r[a, b] <- [[1, 2]] ?[a] := r[a]"]), ErrKind::AggregateMixed);
    assert_eq!(
        kind(&["r[a] := s[a] s[a] := a = 1, not r[a] ?[a] := r[a]"]),
        ErrKind::Unstratifiable
    );
    assert_eq!(kind(&["r[a] <- [[1]]"]), ErrKind::NoEntry);
    assert_eq!(kind(&["?[] <~ NoSuchRule()"]), ErrKind::UnknownFixedRule);
    assert_eq!(kind(&["?[a] <~ ReorderSort()"]), ErrKind::FixedRuleArgs);
}

#[test]
fn aggregates_that_are_refused() {
    assert_eq!(
        refused(&["r[a] <- [[1]] ?[no_such(a)] := r[a]"]),
        (ErrKind::UnknownAggregate, "no_such".to_string())
    );
    assert_eq!(kind(&["r[a] <- [[1]] ?[sum(a, 2)] := r[a]"]), ErrKind::AggregateArgs);
    assert_eq!(kind(&["r[a] <- [[1]] ?[min_cost_k(a)] := r[a]"]), ErrKind::BoundedArgs);
    assert_eq!(kind(&["r[a] <- [[1]] ?[min_cost_k(a, 0)] := r[a]"]), ErrKind::BoundedLimit);
    assert_eq!(
        kind(&["r[a] <- [[1]] ?[min_cost_k(a, 2), b] := r[a], b = a"]),
        ErrKind::BoundedPlace
    );
    assert_eq!(kind(&["r[a] <- [[1]] ?[min_cost_k(a, 2)] := r[a]"]), ErrKind::BoundedPack);
    assert_eq!(kind(&["r[a] <- [['x']] ?[sum(a)] := r[a]"]), ErrKind::AggregateType);
    assert_eq!(
        kind(&["r[a] <- [[1]] s[min(a)] := r[a] s[max(a)] := r[a] ?[a] := s[a]"]),
        ErrKind::AggregateMixed
    );
}

#[test]
fn relations_and_columns_that_do_not_fit() {
    assert_eq!(
        refused(&["?[a] := *nothing[a]"]),
        (ErrKind::RelationNotFound, "nothing".to_string())
    );
    assert_eq!(
        refused(&[":create r {a}", ":create r {a}"]),
        (ErrKind::RelationExists, "r".to_string())
    );
    assert_eq!(
        kind(&[":create r {a}", "::access_level read_only r", "?[a] <- [[1]] :put r {a}"]),
        ErrKind::AccessLevel
    );
    assert_eq!(
        kind(&[":create r {a => b}", "?[a, c] <- [[1, 2]] :put r {a => c}"]),
        ErrKind::ColumnNotFound
    );
    assert_eq!(
        kind(&[":create r {a => b}", "?[a] <- [[1]] :put r {a}"]),
        ErrKind::ColumnMissing
    );
    assert_eq!(kind(&[":create r {a => a}"]), ErrKind::DuplicateColumn);
    assert_eq!(
        kind(&[":create r {a: Int}", "?[a] <- [['x']] :put r {a}"]),
        ErrKind::Coercion
    );
}

#[test]
fn axes_that_are_refused() {
    assert_eq!(kind(&[":create r {k => tt: TxTime}"]), ErrKind::AxisValueColumn);
    assert_eq!(kind(&[":create r {tt: TxTime, k}"]), ErrKind::AxisLast);
    assert_eq!(kind(&[":create r {k, a: TxTime, b: TxTime}"]), ErrKind::AxisTwoTt);
    assert_eq!(kind(&[":create r {a: Validity, b: Validity, tt: TxTime}"]), ErrKind::AxisTwoVt);
    assert_eq!(kind(&[":create r {k, tt: TxTime?}"]), ErrKind::AxisNullable);
    assert_eq!(kind(&[":create r {v: Validity, k, tt: TxTime}"]), ErrKind::AxisGap);
    assert_eq!(
        kind(&["{?[k, x] <- [[1, 1]] :create _r {k, tt: TxTime => x}}"]),
        ErrKind::TempTxTime
    );
}

#[test]
fn plain_writes_that_are_refused() {
    let made = ":create r {a => b}";
    let put = "?[a, b] <- [[1, 2]] :put r {a => b}";
    assert_eq!(
        kind(&[made, put, "?[a, b] <- [[1, 3]] :insert r {a => b}"]),
        ErrKind::KeyExists
    );
    assert_eq!(kind(&[made, "?[a] <- [[1]] :delete r {a}"]), ErrKind::DoesNotExist);
    assert_eq!(
        kind(&[made, "?[a, b] <- [[1, 2]] :update r {a => b}"]),
        ErrKind::DoesNotExist
    );
    assert_eq!(
        kind(&[made, put, "?[a, b] <- [[1, 3]] :ensure r {a => b}"]),
        ErrKind::EnsureMismatch
    );
    assert_eq!(kind(&[made, put, "?[a] <- [[1]] :ensure_not r {a}"]), ErrKind::KeyExists);
    assert_eq!(
        kind(&[made, "?[a, b] <- [[1, 2]] :reconcile r {a => b}"]),
        ErrKind::RequiresTt
    );
}

#[test]
fn stamped_writes_that_are_refused() {
    let made = ":create r {k, tt: TxTime => x}";
    let put = "?[k, x] <- [[1, 1]] :put r {k => x}";
    let rm = "?[k] <- [[1]] :rm r {k}";
    assert_eq!(
        kind(&[made, "?[k, tt, x] <- [[1, 5, 1]] :put r {k, tt => x}"]),
        ErrKind::EngineAssigned
    );
    assert_eq!(
        kind(&[made, put, "{?[k, x] <- [[1, 2]] :put r {k => x}} {?[k] <- [[1]] :rm r {k}}"]),
        ErrKind::AssertsAndRetracts
    );
    assert_eq!(
        kind(&[made, "{?[k, x] <- [[1, 2]] :put r {k => x}} {?[k] <- [[1]] :rm r {k}}"]),
        ErrKind::WrittenSameTx
    );
    assert_eq!(
        kind(&[made, "?[k, x] <- [[1, 1]] :replace r {k, tt: TxTime => x}"]),
        ErrKind::ReplaceHistory
    );
    assert_eq!(kind(&[made, put, put.replace("put", "insert").as_str()]), ErrKind::KeyExists);
    assert_eq!(kind(&[made, "?[k] <- [[1]] :delete r {k}"]), ErrKind::DoesNotExist);
    assert_eq!(
        kind(&[made, put, rm, "?[k] <- [[1]] :delete r {k}"]),
        ErrKind::BelievedDeleted
    );
    assert_eq!(
        kind(&[made, "?[k, x] <- [[1, 1], [1, 2]] :insert r {k => x}"]),
        ErrKind::DuplicateKey
    );
    assert_eq!(
        kind(&[made, "{?[k, x] <- [[1, 1]] :insert r {k => x}} {?[k, x] <- [[1, 2]] :insert r {k => x}}"]),
        ErrKind::AlreadyWritten
    );
    assert_eq!(
        kind(&[made, put, "?[k, x] <- [[1, 9]] :ensure r {k => x}"]),
        ErrKind::EnsureMismatch
    );
    assert_eq!(
        kind(&[
            made,
            put,
            "{?[k, x] <- [[1, 2]] :put r {k => x}} {?[k, x] <- [[1, 1]] :ensure r {k => x}}"
        ]),
        ErrKind::EnsureAmbiguous
    );
    assert_eq!(kind(&[made, "::index create r:by_x {x}"]), ErrKind::TtUnsupported);
}

#[test]
fn writes_on_both_axes_that_are_refused() {
    let made = ":create r {k, v: Validity, tt: TxTime => x}";
    let put = "?[k, v, x] <- [[1, [100, true], 1]] :put r {k, v => x}";
    assert_eq!(
        kind(&[made, put, "?[k, v, x] <- [[1, [100, true], 1]] :ensure r {k, v => x}"]),
        ErrKind::EnsureCurrent
    );
    assert_eq!(
        kind(&[made, put, "?[k, v, x] <- [[1, [200, true], 2]] :insert r {k, v => x}"]),
        ErrKind::RecordedBeliefs
    );
    assert_eq!(
        kind(&[made, put, "?[k, v] <- [[1, [50, false]]] :delete r {k, v}"]),
        ErrKind::NoBelief
    );
    assert_eq!(
        kind(&[made, "?[k, v, x] <- [[1, [100, false], 1]] :reconcile r {k, v => x}"]),
        ErrKind::DeclareBeliefs
    );
    assert_eq!(
        kind(&[
            made,
            "?[k, v, x] <- [[1, [100, true], 1], [1, [100, true], 2]] :reconcile r {k, v => x}"
        ]),
        ErrKind::ConflictingRows
    );
    assert_eq!(
        kind(&[
            made,
            "{?[k, v, x] <- [[1, [100, true], 1]] :put r {k, v => x}} \
             {?[k, v, x] <- [[1, [100, true], 2]] :reconcile r {k, v => x}}"
        ]),
        ErrKind::ReconcileOnly
    );
}

#[test]
fn reads_in_time_that_are_refused() {
    assert_eq!(
        kind(&[":create r {k, tt: TxTime}", "?[k] := *r{k @ (vt: 1)}"]),
        ErrKind::NoValidAxis
    );
    assert_eq!(
        kind(&[":create r {k, v: Validity}", "?[k] := *r{k @ (tt: 1)}"]),
        ErrKind::NoTtAxis
    );
    assert_eq!(
        kind(&[":create r {k}", "?[k] := *r{k} :as_of 5"]),
        ErrKind::AsOfUnused
    );
}

#[test]
fn operations_that_are_refused() {
    let made = ":create r {k, tt: TxTime => x}";
    let put = "?[k, x] <- [[1, 1]] :put r {k => x}";
    assert_eq!(kind(&[":create p {k}", "::history p [[1]]"]), ErrKind::RequiresTt);
    assert_eq!(kind(&[made, put, "::history r 7"]), ErrKind::BadKey);
    assert_eq!(
        kind(&[":create h {k, tt: TxTime => op}", "::history h [[1]]"]),
        ErrKind::HeaderCollides
    );
    assert_eq!(
        kind(&[made, put, "::history_gc r 9223372036854775807"]),
        ErrKind::FutureCutoff
    );
    assert_eq!(
        kind(&[made, put, "{?[k, x] <- [[2, 2]] :put r {k => x}} {::remove r}"]),
        ErrKind::PendingWrites
    );
    assert_eq!(
        kind(&[":create mnestic_evict_audit {a}", made, put, "::evict r [[1]]"]),
        ErrKind::ReservedName
    );
    assert_eq!(kind(&[":create p {a => b}", "::index drop p:none"]), ErrKind::IndexNotFound);
    assert_eq!(
        kind(&[":create p {a => b}", "::index create p:i {b}", "::index create p:i {b}"]),
        ErrKind::IndexExists
    );
}

#[test]
fn steps_that_are_refused() {
    assert_eq!(kind(&["%break"]), ErrKind::StrayJump);
    assert_eq!(kind(&["{?[a] <- [[1]]} as kept"]), ErrKind::NotTemporary);
}

#[test]
fn stores_at_their_limits() {
    let mut store = Store::default();
    store.next_id = u64::MAX;
    let mut db = DbInstance::open("mem", store).unwrap();
    assert_eq!(db.run_default(":create r {a}").unwrap_err().kind, ErrKind::IdsExhausted);

    let mut db = DbInstance::default();
    db.run_default(":create r {k, tt: TxTime}").unwrap();
    db.inner_mut().advance_clock(i64::MAX);
    assert_eq!(
        db.run_default("?[k] <- [[1]] :put r {k}").unwrap_err().kind,
        ErrKind::ClockExhausted
    );
    // The refused write left nothing behind.
    assert_eq!(db.run_default("?[k] := *r{k}").unwrap().rows.len(), 0);
}

#[test]
fn handles_that_are_refused() {
    assert_eq!(DbInstance::new("tape", "", "").err().unwrap().kind, ErrKind::UnknownEngine);

    let mut db = DbInstance::default();
    db.run_default(":create r {a}").unwrap();
    let write = "?[a] <- [[1]] :put r {a}";
    assert_eq!(
        db.run_script(write, &Params::new(), ScriptMutability::Immutable).unwrap_err().kind,
        ErrKind::ReadOnly
    );

    let mut tx = db.multi_transaction(true);
    tx.run_script(&db, write, &Params::new()).unwrap();
    db.run_default("?[a] <- [[2]] :put r {a}").unwrap();
    assert_eq!(tx.commit(&mut db).unwrap_err().kind, ErrKind::Conflict);
    assert_eq!(db.run_default("?[a] := *r{a}").unwrap().rows, vec![vec![DataValue::Int(2)]]);
}

#[test]
fn imports_that_are_refused() {
    let mut db = DbInstance::default();
    db.run_default(":create r {k, tt: TxTime}").unwrap();
    db.run_default("?[k] <- [[1]] :put r {k}").unwrap();
    let mut items: List<Import> = List::new();
    items.push(Import {
        name: "-r".to_string(),
        rows: NamedRows {
            headers: vec!["k".to_string()],
            rows: vec![vec![DataValue::Int(1)]],
        },
    });
    assert_eq!(db.import_relations(&items).unwrap_err().kind, ErrKind::DeleteImport);

    let backup = db.backup_db();
    assert_eq!(db.import_from_backup(&backup, &["r"]).unwrap_err().kind, ErrKind::ImportTt);
}
