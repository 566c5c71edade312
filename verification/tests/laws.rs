//! The laws of the library on concrete values.
use mnestic::backup::Import;
use mnestic::db::{NamedRows, Params, ScriptMutability};
use mnestic::error::ErrKind;
use mnestic::fixtures::{
    bitemporal_fixture, bitemporal_fixture_at, corrupt_all_index_values, record_history,
};
use mnestic::fts::{TokenizerCache, TokenizerConfig};
use mnestic::instance::DbInstance;
use mnestic::list::List;
use mnestic::value::DataValue;

fn whole(n: i64) -> DataValue {
    DataValue::Int(n)
}

fn frac(x: f64) -> DataValue {
    DataValue::Real((x * 1_000_000.0).round() as i128)
}

fn text(s: &str) -> DataValue {
    DataValue::from(s)
}

fn numbers(rows: &[&[i64]]) -> Vec<Vec<DataValue>> {
    rows.iter().map(|r| r.iter().map(|n| whole(*n)).collect()).collect()
}

fn rows(db: &mut DbInstance, script: &str) -> Vec<Vec<DataValue>> {
    match db.run_default(script) {
        Ok(r) => r.rows,
        Err(e) => panic!("{}: {}", script, e.report()),
    }
}

fn value(expr: &str) -> DataValue {
    let mut db = DbInstance::default();
    let script = format!("?[a] := a = {}", expr);
    rows(&mut db, &script)[0][0].clone()
}

fn made(scripts: &[&str]) -> DbInstance {
    let mut db = DbInstance::default();
    for s in scripts {
        rows(&mut db, s);
    }
    db
}

#[test]
fn what_is_put_is_found() {
    let mut db = made(&[
        ":create r {k => v}",
        "?[k, v] <- [[1, 10], [2, 20]] :put r {k => v}",
        "?[k, v] <- [[1, 11]] :put r {k => v}",
    ]);
    assert_eq!(rows(&mut db, "?[k, v] := *r{k, v}"), numbers(&[&[1, 11], &[2, 20]]));
}

#[test]
fn what_is_removed_is_gone() {
    let mut db = made(&[
        ":create r {k => v}",
        "?[k, v] <- [[1, 10], [2, 20]] :put r {k => v}",
        "?[k] <- [[1]] :rm r {k}",
    ]);
    assert_eq!(rows(&mut db, "?[k, v] := *r{k, v}"), numbers(&[&[2, 20]]));
}

#[test]
fn an_update_replaces_what_is_given() {
    let mut db = made(&[
        ":create r {k => a, b}",
        "?[k, a, b] <- [[1, 10, 100], [2, 20, 200]] :put r {k => a, b}",
        "?[k, b] <- [[1, 101]] :update r {k => b}",
    ]);
    assert_eq!(
        rows(&mut db, "?[k, a, b] := *r{k, a, b}"),
        numbers(&[&[1, 10, 101], &[2, 20, 200]])
    );
}

#[test]
fn values_of_every_kind_are_read_as_they_were_written() {
    let mut db = made(&[":create r {k => v}"]);
    let all = vec![
        DataValue::Null,
        DataValue::Bool(true),
        whole(i64::MIN),
        frac(-1.5),
        text("snow \u{2603} and \u{1d11e}"),
        DataValue::Bytes(vec![0, 255, 128]),
        DataValue::Uuid(7),
        DataValue::List(vec![whole(1), DataValue::List(vec![text("")])]),
        DataValue::Validity(5, false),
    ];
    for (i, v) in all.iter().enumerate() {
        let params = Params::new().with("k", whole(i as i64)).with("v", v.clone());
        db.run_script("?[k, v] <- [[$k, $v]] :put r {k => v}", &params, ScriptMutability::Mutable)
            .unwrap();
    }
    let got = rows(&mut db, "?[k, v] := *r{k, v}");
    assert_eq!(got.len(), all.len());
    for (i, v) in all.iter().enumerate() {
        assert_eq!(got[i][1], *v);
    }
}

#[test]
fn rows_come_in_the_order_of_their_values() {
    let mut db = DbInstance::default();
    let got = rows(
        &mut db,
        "?[a] <- [['b'], [2], [true], [1.5], ['a'], [null], [[1]], [-3], [false], [2]]",
    );
    let firsts: Vec<DataValue> = got.into_iter().map(|r| r[0].clone()).collect();
    assert_eq!(
        firsts,
        vec![
            DataValue::Null,
            DataValue::Bool(false),
            DataValue::Bool(true),
            whole(-3),
            frac(1.5),
            whole(2),
            text("a"),
            text("b"),
            DataValue::List(vec![whole(1)]),
        ]
    );
}

#[test]
fn a_reading_in_the_past_does_not_move() {
    let (mut db, tts) = match bitemporal_fixture("mem", "") {
        Ok(pair) => pair,
        Err(e) => panic!("{}", e.report()),
    };
    let script = format!("?[x] := *hist[k, v, t, x @ (vt: 250, tt: {})]", tts[1]);
    let before = rows(&mut db, &script);
    assert_eq!(before, numbers(&[&[2]]));
    rows(&mut db, "?[k, v, x] <- [[1, [200, true], 9]] :put hist {k, v => x}");
    assert_eq!(rows(&mut db, &script), before);
    // The commits came one after the other.
    assert!(tts[0] < tts[1] && tts[1] < tts[2] && tts[2] < tts[3]);
    assert!(db.tt_clock().peek() > tts[3]);
}

#[test]
fn a_collection_keeps_readings_above_the_floor() {
    let mut db = made(&[":create r {k, tt: TxTime => x}"]);
    let mut times = vec![];
    for x in 1..4 {
        rows(&mut db, &format!("?[k, x] <- [[1, {}]] :put r {{k => x}}", x));
        times.push(db.tt_clock().peek());
    }
    let at = |t: i64| format!("?[x] := *r{{k: 1, x @ (tt: {})}}", t);
    rows(&mut db, &format!("::history_gc r {}", times[1]));
    assert_eq!(rows(&mut db, &at(times[1])), numbers(&[&[2]]));
    assert_eq!(rows(&mut db, &at(times[2])), numbers(&[&[3]]));
    assert_eq!(db.run_default(&at(times[0])).unwrap_err().kind, ErrKind::BelowFloor);
    // An earlier cutoff does not lower the floor.
    rows(&mut db, &format!("::history_gc r {}", times[0]));
    assert_eq!(db.run_default(&at(times[0])).unwrap_err().kind, ErrKind::BelowFloor);
}

#[test]
fn what_is_pending_is_not_seen() {
    let mut db = made(&[":create r {k, tt: TxTime => x}", "?[k, x] <- [[1, 1]] :put r {k => x}"]);
    let seen = rows(
        &mut db,
        "{?[k, x] <- [[1, 2]] :put r {k => x}} {?[k, x] := *r{k, x}}",
    );
    assert_eq!(seen, numbers(&[&[1, 1]]));
    assert_eq!(rows(&mut db, "?[k, x] := *r{k, x}"), numbers(&[&[1, 2]]));
}

#[test]
fn a_transaction_has_one_write_about_a_point() {
    let mut db = made(&[":create r {k, tt: TxTime => x}", "?[k, x] <- [[2, 2]] :put r {k => x}"]);
    rows(
        &mut db,
        "{?[k, x] <- [[1, 1]] :put r {k => x}} {?[k, x] <- [[1, 10]] :put r {k => x}}",
    );
    assert_eq!(rows(&mut db, "::history r [[1]]").len(), 1);
    assert_eq!(rows(&mut db, "?[k, x] := *r{k, x}"), numbers(&[&[1, 10], &[2, 2]]));
}

#[test]
fn a_declaration_brings_about_what_it_declares() {
    let mut db = made(&[
        ":create r {k, tt: TxTime => x}",
        "?[k, x] <- [[1, 1], [2, 2], [3, 3]] :put r {k => x}",
        "?[k, x] <- [[2, 2], [3, 30], [4, 4]] :reconcile r {k => x}",
    ]);
    assert_eq!(
        rows(&mut db, "?[k, x] := *r{k, x}"),
        numbers(&[&[2, 2], &[3, 30], &[4, 4]])
    );
    // Declaring it once more writes nothing.
    let before = db.tt_clock().peek();
    rows(&mut db, "?[k, x] <- [[2, 2], [3, 30], [4, 4]] :reconcile r {k => x}");
    assert_eq!(db.tt_clock().peek(), before);
}

#[test]
fn an_eviction_leaves_nothing_of_a_fact() {
    let mut db = made(&[
        ":create r {k, tt: TxTime => x}",
        "?[k, x] <- [[1, 1], [2, 2]] :put r {k => x}",
        "?[k, x] <- [[1, 10]] :put r {k => x}",
        "::evict r [[1]]",
    ]);
    assert!(rows(&mut db, "::history r [[1]]").is_empty());
    assert_eq!(rows(&mut db, "::history r [[2]]").len(), 1);
    assert_eq!(rows(&mut db, "?[k, x] := *r{k, x}"), numbers(&[&[2, 2]]));
}

#[test]
fn a_script_that_only_reads_changes_nothing() {
    let mut db = made(&[":create r {k}", "?[k] <- [[1]] :put r {k}"]);
    let got = db
        .run_script(
            "{?[k] := *r{k} :create _t {k}} {?[k] := *_t{k}}",
            &Params::new(),
            ScriptMutability::Immutable,
        )
        .unwrap();
    assert_eq!(got.rows, numbers(&[&[1]]));
    assert_eq!(rows(&mut db, "::relations").len(), 1);
    // A transaction that was open meanwhile can still be committed.
    let mut tx = db.multi_transaction(true);
    tx.run_script(&db, "?[k] <- [[2]] :put r {k}", &Params::new()).unwrap();
    db.run_script("?[k] := *r{k}", &Params::new(), ScriptMutability::Immutable).unwrap();
    tx.commit(&mut db).unwrap();
    assert_eq!(rows(&mut db, "?[k] := *r{k}"), numbers(&[&[1], &[2]]));
}

#[test]
fn what_was_closed_is_opened() {
    let mut db = DbInstance::new("sqlite", "", "").unwrap();
    rows(&mut db, ":create r {k, tt: TxTime => x}");
    rows(&mut db, "?[k, x] <- [[1, 1]] :put r {k => x}");
    let time = db.tt_clock().peek();
    let mut again = DbInstance::open("sqlite", db.into_storage()).unwrap();
    assert_eq!(again.tt_clock().peek(), time);
    assert_eq!(rows(&mut again, "?[k, x] := *r{k, x}"), numbers(&[&[1, 1]]));
    rows(&mut again, "?[k, x] <- [[1, 2]] :put r {k => x}");
    assert!(again.tt_clock().peek() > time);

    let backup = again.backup_db();
    rows(&mut again, "?[k] <- [[1]] :rm r {k}");
    again.restore_backup(&backup).unwrap();
    assert_eq!(rows(&mut again, "?[k, x] := *r{k, x}"), numbers(&[&[1, 2]]));
}

#[test]
fn an_index_is_a_projection_and_serves_the_same_rows() {
    let mut db = made(&[
        ":create r {k => a, b}",
        "?[k, a, b] <- [[1, 7, 70], [2, 8, 80], [3, 7, 71]] :put r {k => a, b}",
    ]);
    let query = "?[k, b] := *r{k, a: 7, b}";
    let before = rows(&mut db, query);
    rows(&mut db, "::index create r:by_a {a}");
    assert_eq!(rows(&mut db, query), before);
    assert_eq!(rows(&mut db, "?[a, k] := *r:by_a{a, k}"), numbers(&[&[7, 1], &[7, 3], &[8, 2]]));
    let steps = rows(&mut db, "::explain { ?[k, b] := *r{k, a: 7, b} }");
    assert_eq!(steps[0][5], text(":r:by_a"));
    // A key that is told is looked up in the relation itself.
    let steps = rows(&mut db, "::explain { ?[b] := *r{k: 1, a: 7, b} }");
    assert_eq!(steps[0][5], text(":r"));
}

#[test]
fn conditions_are_met_in_whatever_order_they_stand() {
    let mut db = DbInstance::default();
    let got = rows(&mut db, "r[a] <- [[1], [2], [3]] ?[b] := a > 1, b = a * 10, not s[a], r[a] s[a] <- [[3]]");
    assert_eq!(got, numbers(&[&[20]]));
}

#[test]
fn joins_and_negations() {
    let mut db = DbInstance::default();
    let facts = "r[a, b] <- [[1, 2], [2, 3], [3, 4]] ";
    assert_eq!(
        rows(&mut db, &format!("{}?[a, c] := r[a, b], r[b, c]", facts)),
        numbers(&[&[1, 3], &[2, 4]])
    );
    assert_eq!(
        rows(&mut db, &format!("{}?[a] := r[a, b], not r[b, _]", facts)),
        numbers(&[&[3]])
    );
    // A recursion ends where another round adds nothing.
    assert_eq!(
        rows(&mut db, &format!("{}p[a, b] := r[a, b] p[a, c] := p[a, b], r[b, c] ?[c] := p[1, c]", facts)),
        numbers(&[&[2], &[3], &[4]])
    );
}

#[test]
fn the_best_of_a_group_are_few() {
    let mut db = DbInstance::default();
    let got = rows(
        &mut db,
        "r[g, p] <- [[1, ['a', 3]], [1, ['b', 1]], [1, ['c', 2]], [2, ['d', 9]]] \
         ?[g, min_cost_k(p, 2)] := r[g, p]",
    );
    let pack = |s: &str, n: i64| DataValue::List(vec![text(s), whole(n)]);
    assert_eq!(
        got,
        vec![
            vec![whole(1), pack("b", 1)],
            vec![whole(1), pack("c", 2)],
            vec![whole(2), pack("d", 9)],
        ]
    );
}

#[test]
fn a_hidden_relation_stays_hidden() {
    let mut db = made(&[
        ":create r {k => v: String}",
        "?[k, v] <- [[1, 'a b']] :put r {k => v}",
        "::index create r:by_v {v}",
        "::fts create r:words {extractor: v, tokenizer: Simple, filters: [Lowercase]}",
        "::access_level hidden r",
    ]);
    for name in ["r", "r:by_v", "r:words"] {
        let script = format!("?[k] := *{}[k]", name);
        assert_eq!(db.run_default(&script).unwrap_err().kind, ErrKind::AccessLevel);
    }
}

#[test]
fn repairs_leave_what_can_be_read() {
    let mut db = made(&[":create r {k => v}", "?[k, v] <- [[1, 1], [2, 2]] :put r {k => v}"]);
    let mut key = List::new();
    key.push(whole(2));
    db.put_raw("r", key, vec![9, 9]).unwrap();
    assert_eq!(db.run_default("?[k] := *r{k}").unwrap_err().kind, ErrKind::CorruptBlob);
    rows(&mut db, "::repair_corrupt r");
    assert_eq!(rows(&mut db, "?[k, v] := *r{k, v}"), numbers(&[&[1, 1]]));
}

#[test]
fn searches_show_the_best_first() {
    let mut db = made(&[
        ":create r {k => v: <F32; 2>, t: String}",
        "?[k, v, t] <- [[1, [0, 0], 'One fish'], [2, [3, 4], 'two FISH, red fish'], [3, [0, 1], 'none']] \
         :put r {k => v, t}",
        "::hnsw create r:near {dim: 2, fields: [v], m: 1, filter: k < 9}",
        "::fts create r:words {extractor: t, tokenizer: Simple, filters: [Lowercase]}",
        "::lsh create r:like {extractor: t, tokenizer: NGram, n_gram: 2, target_threshold: 0.5}",
    ]);
    assert_eq!(
        rows(&mut db, "?[d, k] := ~r:near{k | query: vec([0, 0]), k: 2, bind_distance: d}"),
        vec![vec![frac(0.0), whole(1)], vec![frac(1.0), whole(3)]]
    );
    assert_eq!(
        rows(&mut db, "?[k] := ~r:near{k | query: vec([0, 0]), radius: 2, filter: k > 1}"),
        numbers(&[&[3]])
    );
    assert_eq!(
        rows(&mut db, "?[s, k] := ~r:words{k | query: 'fish', bind_score: s}"),
        numbers(&[&[1, 1], &[2, 2]])
    );
    assert_eq!(rows(&mut db, "?[k] := ~r:words{k | query: 'fish', k: 1}"), numbers(&[&[2]]));
    assert_eq!(rows(&mut db, "?[k] := ~r:like{k | query: 'One fish!'}"), numbers(&[&[1]]));
    assert!(rows(&mut db, "?[k] := ~r:like{k | query: 'something else'}").is_empty());
    // What an index keeps can be read like a relation.
    assert_eq!(
        rows(&mut db, "?[f, t] := *r:words{word: 'fish', src_k: 2, offset_from: f, offset_to: t}"),
        vec![vec![
            DataValue::List(vec![whole(4), whole(14)]),
            DataValue::List(vec![whole(8), whole(18)]),
        ]]
    );
    assert_eq!(
        rows(&mut db, "?[fr_k, to_k] := *r:near{layer: 0, fr_k, to_k}, fr_k != to_k"),
        numbers(&[&[1, 3], &[2, 3], &[3, 1]])
    );
    // Indices follow what is written.
    rows(&mut db, "?[k] <- [[1], [2]] :rm r {k}");
    assert_eq!(rows(&mut db, "?[k] := ~r:near{k | query: vec([0, 0])}"), numbers(&[&[3]]));
    assert!(rows(&mut db, "?[k] := ~r:words{k | query: 'fish'}").is_empty());
    assert!(rows(&mut db, "?[k] := ~r:like{k | query: 'One fish'}").is_empty());
    rows(&mut db, "::lsh drop r:like");
    assert_eq!(
        db.run_default("?[k] := ~r:like{k | query: 'x'}").unwrap_err().kind,
        ErrKind::IndexNotFound
    );
    let listed = rows(&mut db, "::indices r");
    assert_eq!(listed[0], vec![text("r:near"), text("hnsw"), DataValue::List(vec![text("v")])]);
    assert_eq!(listed.len(), 2);
}

#[test]
fn distances() {
    assert_eq!(value("l2_dist(vec([1, 2]), vec([4, 6]))"), frac(25.0));
    assert_eq!(value("ip_dist(vec([1, 2]), vec([3, 0.5]))"), frac(-3.0));
    assert_eq!(value("cos_dist(vec([1, 0]), vec([0, 2]))"), frac(1.0));
    assert_eq!(value("cos_dist(vec([3, 4]), vec([6, 8]))"), frac(0.0));
    assert_eq!(
        value("l2_normalize(vec([3, 4]))"),
        DataValue::List(vec![frac(0.6), frac(0.8)])
    );
    let mut db = DbInstance::default();
    let zero = "?[a] := a = cos_dist(vec([0, 0]), vec([1, 1]))";
    assert_eq!(db.run_default(zero).unwrap_err().kind, ErrKind::DivisionByZero);
    let short = "?[a] := a = l2_dist(vec([0]), vec([1, 1]))";
    assert_eq!(db.run_default(short).unwrap_err().kind, ErrKind::TypeMismatch);
}

#[test]
fn arithmetic() {
    assert_eq!(value("7 / 2"), frac(3.5));
    assert_eq!(value("-7 % 3"), whole(-1));
    assert_eq!(value("floor(-1.5)"), frac(-2.0));
    assert_eq!(value("to_int(-1.5)"), whole(-1));
    assert_eq!(value("1.5 * 2"), frac(3.0));
    // A product with a real is a real, however large.
    assert_eq!(value("9000000000.5 * 1000000"), DataValue::Real(9_000_000_000_500_000_000_000));
    assert_eq!(value("concat([1], [2])"), DataValue::List(vec![whole(1), whole(2)]));
    assert_eq!(value("length('\u{2603}\u{2603}')"), whole(2));
    assert_eq!(value("1 == 1.0"), DataValue::Bool(true));
}

#[test]
fn identifiers_and_noise_differ() {
    let mut db = DbInstance::default();
    let got = rows(&mut db, "?[a, b] <- [[rand_uuid_v1(), rand_uuid_v1()], [rand_uuid_v1(), rand_uuid_v1()]]");
    let mut all: Vec<&DataValue> = got.iter().flatten().collect();
    assert_eq!(all.len(), 4);
    all.dedup();
    assert_eq!(all.len(), 4);
    let vecs = rows(&mut db, "?[a, b] := a = rand_vec(3), b = rand_vec(3)");
    assert_ne!(vecs[0][0], vecs[0][1]);
    // Each row of a query and each rule gets its own.
    let got = rows(
        &mut db,
        "r[x] <- [[1], [2]] ?[a] := r[x], a = rand_uuid_v1() ?[a] := r[x], a = rand_uuid_v1()",
    );
    assert_eq!(got.len(), 4);
}

#[test]
fn a_transaction_of_several_scripts_is_one() {
    let mut db = made(&[":create r {k, tt: TxTime}"]);
    let mut tx = db.multi_transaction(true);
    tx.run_script(&db, "?[k] <- [[1]] :put r {k}", &Params::new()).unwrap();
    tx.run_script(&db, "?[k] <- [[2]] :put r {k}", &Params::new()).unwrap();
    assert!(rows(&mut db, "?[k] := *r{k}").is_empty());
    let mut other = db.multi_transaction(true);
    other.run_script(&db, "?[k] <- [[3]] :put r {k}", &Params::new()).unwrap();
    other.commit(&mut db).unwrap();
    assert_eq!(tx.commit(&mut db).unwrap_err().kind, ErrKind::Conflict);
    let got = rows(&mut db, "?[k, t] := *r{k, tt: t}");
    assert_eq!(got, vec![vec![whole(3), whole(db.tt_clock().peek())]]);
    // One that only reads is in nobody's way.
    let mut reader = db.multi_transaction(false);
    rows(&mut db, "?[k] <- [[4]] :put r {k}");
    assert_eq!(
        reader.run_script(&db, "?[k] := *r{k}", &Params::new()).unwrap().rows,
        numbers(&[&[3]])
    );
    reader.commit(&mut db).unwrap();
}

#[test]
fn imports_are_one_transaction() {
    let mut db = made(&[":create r {k => v}", ":create s {k}"]);
    let item = |name: &str, headers: &[&str], rows: Vec<Vec<DataValue>>| Import {
        name: name.to_string(),
        rows: NamedRows { headers: headers.iter().map(|s| s.to_string()).collect(), rows },
    };
    let mut items = List::new();
    items.push(item("r", &["k", "v"], numbers(&[&[1, 2]])));
    items.push(item("missing", &["k"], numbers(&[&[1]])));
    assert!(db.import_relations(&items).is_err());
    assert!(rows(&mut db, "?[k] := *r{k}").is_empty());
    let mut items = List::new();
    items.push(item("r", &["k", "v"], numbers(&[&[1, 2], &[3, 4]])));
    items.push(item("-r", &["k"], numbers(&[&[1]])));
    db.import_relations(&items).unwrap();
    assert_eq!(rows(&mut db, "?[k, v] := *r{k, v}"), numbers(&[&[3, 4]]));
    // What is exported can be imported.
    let export = db.export_relations(&["r"]).unwrap();
    let mut twin = made(&[":create r {k => v}"]);
    let mut items = List::new();
    items.push(Import { name: "r".to_string(), rows: export.get("r").unwrap().clone() });
    twin.import_relations(&items).unwrap();
    assert_eq!(rows(&mut twin, "?[k, v] := *r{k, v}"), numbers(&[&[3, 4]]));
}

#[test]
fn words_are_lowered_and_have_their_places() {
    let config = |name: &str| TokenizerConfig { name: name.to_string(), args: vec![] };
    let cache = TokenizerCache::default();
    let analyzer = cache.get("low", &config("Simple"), &[config("Lowercase")]).unwrap();
    let mut stream = analyzer.token_stream("Off-the-SHELF \u{c9}tude");
    let mut got = vec![];
    while let Some(t) = stream.next() {
        got.push((t.text, t.offset_from, t.offset_to));
    }
    assert_eq!(
        got,
        vec![
            ("off".to_string(), 0, 3),
            ("the".to_string(), 4, 7),
            ("shelf".to_string(), 8, 13),
            ("\u{c9}tude".to_string(), 14, 19),
        ]
    );
    assert_eq!(
        cache.get("x", &config("Other"), &[]).err().unwrap().kind,
        ErrKind::UnknownFunction
    );
    assert_eq!(
        cache.get("x", &config("Simple"), &[config("Other")]).err().unwrap().kind,
        ErrKind::UnknownFunction
    );
}

#[test]
fn engines_answer_alike() {
    for engine in ["mem", "sqlite", "rocksdb"] {
        let mut db = DbInstance::new(engine, "", "").unwrap();
        assert_eq!(db.set_durable_writes(true), engine == "rocksdb");
        rows(&mut db, ":create r {k => v}");
        rows(&mut db, "?[k, v] <- [[1, 2]] :put r {k => v}");
        assert_eq!(rows(&mut db, "?[k, v] := *r{k, v}"), numbers(&[&[1, 2]]));
    }
}

#[test]
fn the_clock_shows_the_present() {
    let mut db = made(&[":create r {k, tt: TxTime}"]);
    assert_eq!(db.tt_clock().peek(), 0);
    let before = std::time::SystemTime::now()
        .duration_since(std::time::UNIX_EPOCH)
        .unwrap()
        .as_micros() as i64;
    rows(&mut db, "?[k] <- [[1]] :put r {k}");
    assert!(db.tt_clock().peek() >= before);
}

#[test]
fn recursion_derives_what_follows_and_no_more() {
    let mut db = DbInstance::default();
    let script = "
        edge[a, b] <- [[1, 2], [2, 3], [3, 1], [4, 5], [6, 6]]
        path[a, b] := edge[a, b]
        path[a, c] := path[a, b], edge[b, c]
        apart[a, b] := edge[a, _], edge[_, b], not path[a, b]
        ?[kind, a, b] := path[a, b], kind = 0
        ?[kind, a, b] := apart[a, b], kind = 1
    ";
    let reached: &[(i64, i64)] =
        &[(1, 1), (1, 2), (1, 3), (2, 1), (2, 2), (2, 3), (3, 1), (3, 2), (3, 3), (4, 5), (6, 6)];
    let mut expected = vec![];
    for (a, b) in reached {
        expected.push(vec![whole(0), whole(*a), whole(*b)]);
    }
    for a in [1, 2, 3, 4, 6] {
        for b in [1, 2, 3, 5, 6] {
            if !reached.contains(&(a, b)) {
                expected.push(vec![whole(1), whole(a), whole(b)]);
            }
        }
    }
    assert_eq!(rows(&mut db, script), expected);
}

#[test]
fn the_history_reads_the_same_everywhere() {
    let timeline = |vt: i64, i: usize| -> Option<i64> {
        if vt < 100 {
            None
        } else if vt < 200 || i == 0 {
            Some(1)
        } else if i == 1 {
            Some(2)
        } else if i == 2 || vt < 300 {
            Some(3)
        } else {
            None
        }
    };
    for engine in ["mem", "sqlite", "rocksdb"] {
        let (mut db, tts) = bitemporal_fixture_at(engine, "", &[5, 5, 70, 60, 90]).ok().unwrap();
        assert_eq!(tts, [5, 70, 71, 90]);
        for i in 0..4 {
            for vt in [i64::MIN, -7, 0, 99, 100, 150, 199, 200, 299, 300, 1000] {
                let script = format!("?[x] := *hist[k, v, t, x @ (vt: {}, tt: {})]", vt, tts[i]);
                let expected: Vec<Vec<DataValue>> =
                    timeline(vt, i).into_iter().map(|x| vec![whole(x)]).collect();
                assert_eq!(rows(&mut db, &script), expected);
            }
        }
        // The clock must not have run out before the last write.
        let last = i64::MAX - 3;
        let late = bitemporal_fixture_at(engine, "", &[0, last, last, last, last]);
        assert_eq!(late.ok().unwrap().1, [last, last + 1, last + 2, last + 3]);
        let over = bitemporal_fixture_at(engine, "", &[0, last + 1, 0, 0, 0]);
        assert_eq!(over.err().unwrap().kind, ErrKind::ClockExhausted);
    }
    assert_eq!(DbInstance::new("other", "", "").err().unwrap().kind, ErrKind::UnknownEngine);
}

#[test]
fn a_history_is_made_once() {
    let mut db = made(&[":create other {k => v}"]);
    assert_eq!(record_history(&mut db, &[5, 5, 70, 60, 90]).unwrap(), [5, 70, 71, 90]);
    let all = "?[v, t, x] := *hist[k, v, t, x]";
    let before = rows(&mut db, all);
    assert_eq!(before.len(), 3);
    let again = record_history(&mut db, &[100, 110, 120, 130, 140]).unwrap_err();
    assert_eq!(again.kind, ErrKind::RelationExists);
    assert_eq!(rows(&mut db, all), before);
    assert_eq!(db.tt_clock().peek(), 90);
    // What stands in a store is there when it is opened again.
    let mut db = DbInstance::open("sqlite", db.into_storage()).unwrap();
    let again = record_history(&mut db, &[100, 110, 120, 130, 140]).unwrap_err();
    assert_eq!(again.kind, ErrKind::RelationExists);
    assert_eq!(rows(&mut db, all), before);
    // Where the clock runs out, the writes before that stay.
    let mut db = DbInstance::default();
    let late = record_history(&mut db, &[0, 7, i64::MAX, 0, 0]).unwrap_err();
    assert_eq!(late.kind, ErrKind::ClockExhausted);
    assert_eq!(rows(&mut db, all).len(), 2);
}

#[test]
fn the_least_integer_can_be_written() {
    assert_eq!(value("-9223372036854775808"), whole(i64::MIN));
    assert_eq!(value("-9223372036854775808 + 1"), whole(i64::MIN + 1));
    let mut db = DbInstance::default();
    let kind = |db: &mut DbInstance, e: &str| {
        db.run_default(&format!("?[a] := a = {}", e)).unwrap_err().kind
    };
    assert_eq!(kind(&mut db, "9223372036854775808"), ErrKind::Parse);
    assert_eq!(kind(&mut db, "-9223372036854775809"), ErrKind::Lex);
    assert_eq!(kind(&mut db, "--9223372036854775808"), ErrKind::Overflow);
}

#[test]
fn a_commit_writes_every_relation() {
    let mut db = made(&[
        ":create a {k, tt: TxTime => v}",
        ":create b {k, w: Validity, tt: TxTime => v}",
        "?[k, v] <- [[1, 1], [2, 2]] :put a {k => v}",
    ]);
    rows(
        &mut db,
        "{?[k, v] <- [[2, 20], [3, 30]] :put a {k => v}} \
         {?[k, w, v] <- [[1, [5, true], 50]] :put b {k, w => v}}",
    );
    assert_eq!(rows(&mut db, "?[k, v] := *a{k, v}"), numbers(&[&[1, 1], &[2, 20], &[3, 30]]));
    assert_eq!(rows(&mut db, "?[k, v] := *b{k, v @ 5}"), numbers(&[&[1, 50]]));
}

#[test]
fn a_search_fails_where_it_reads_what_is_corrupt() {
    let mut db = DbInstance::new("sqlite", "", "").unwrap();
    rows(&mut db, ":create docs {id: Int => body: String}");
    rows(
        &mut db,
        "::fts create docs:search { extractor: body, tokenizer: Simple, filters: [Lowercase] }",
    );
    rows(&mut db, "?[id, body] <- [[1, 'needle text']] :put docs {id => body}");
    let needle = "?[id] := ~docs:search{id | query: 'needle', k: 10}";
    assert_eq!(rows(&mut db, needle), numbers(&[&[1]]));
    corrupt_all_index_values(&mut db, "docs", "search", false);
    assert_eq!(db.run_default(needle).unwrap_err().kind, ErrKind::CorruptBlob);
    // What is in no record is not found, and no record is read for it.
    let other = "?[id] := ~docs:search{id | query: 'thread', k: 10}";
    assert_eq!(rows(&mut db, other), numbers(&[]));
}

#[test]
fn the_best_packs_were_given() {
    let mut db = DbInstance::default();
    let script = "
        p[g, c] <- [[1, ['a', 3.0]], [1, ['b', 1.0]], [1, ['c', 2.0]], [2, ['d', 9.0]]]
        ?[g, min_cost_k(c, 2)] := p[g, c]
    ";
    let pack = |n: &str, c: f64| DataValue::List(vec![text(n), frac(c)]);
    assert_eq!(
        rows(&mut db, script),
        vec![
            vec![whole(1), pack("b", 1.0)],
            vec![whole(1), pack("c", 2.0)],
            vec![whole(2), pack("d", 9.0)],
        ]
    );
}

#[test]
fn many_rules_are_ordered() {
    let mut script = String::from("r0[a] <- [[1]] ");
    for n in 1..200 {
        script.push_str(&format!("r{}[a] := r{}[b], a = b + 1 ", n, n - 1));
    }
    script.push_str("?[a] := r199[a]");
    let mut db = DbInstance::default();
    assert_eq!(rows(&mut db, &script), numbers(&[&[200]]));
}

#[test]
fn reals_are_wide() {
    let large = |n: i64| DataValue::Real(n as i128 * 1_000_000);
    assert_eq!(value("10000000000000 + 0.5"), DataValue::Real(10_000_000_000_000_500_000));
    assert_eq!(value("3000000000000.0 * 3000000.0"), large(9_000_000_000_000_000_000));
    assert_eq!(value("9000000000000000000.0 / 3000000.0"), large(3_000_000_000_000));
    assert_eq!(value("-7.5 * 0.000001"), DataValue::Real(-7));
    assert_eq!(value("1.0 / -3.0"), DataValue::Real(-333_333));
    assert_eq!(value("-(2.5 - 10.0)"), frac(7.5));
    // A product or a quotient may need more than the width of a real on its way.
    let square = "9000000000000000000.0 * 9000000000000000000.0";
    assert_eq!(value(square), DataValue::Real(i128::MAX));
    assert_eq!(
        value("9000000000.0 * 9000000000000000000.0"),
        DataValue::Real(81_000_000_000_000_000_000_000_000_000_000_000)
    );
    assert_eq!(
        value(&format!("{} / 9000000000000000000.0", square)),
        DataValue::Real(i128::MAX / 9_000_000_000_000_000_000)
    );
    // Reals outlive the encoding of rows.
    let mut db = made(&[":create r {k => v: Float}"]);
    rows(&mut db, "?[k, v] <- [[1, 9000000000000000000], [2, -0.5]] :put r {k => v}");
    assert_eq!(
        rows(&mut db, "?[v] := *r{v}"),
        vec![vec![frac(-0.5)], vec![large(9_000_000_000_000_000_000)]]
    );
}
