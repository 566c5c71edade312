//! Aggregations, registered and built in.
use mnestic::aggr::{MeetAggrAnd, MeetAggrBitAnd, MeetAggrBitOr, MeetAggrObj, MeetAggrOr, TestAdder, TestMaxi};
use mnestic::instance::DbInstance;
use mnestic::list::List;
use mnestic::value::DataValue;

fn whole(n: i64) -> DataValue {
    DataValue::Int(n)
}

fn frac(x: f64) -> DataValue {
    DataValue::Real((x * 1_000_000.0).round() as i128)
}

fn text(s: &str) -> DataValue {
    DataValue::from(s)
}

fn list(v: Vec<DataValue>) -> DataValue {
    DataValue::List(v)
}

fn num(v: &DataValue) -> i64 {
    match v {
        DataValue::Int(n) => *n,
        _ => panic!("not an integer: {:?}", v),
    }
}

#[test]
fn test_normal_aggr_empty() {
    let mut db = DbInstance::default();
    let res = db.run_default("?[count(a)] := a in []").unwrap().rows;
    assert_eq!(res, vec![vec![whole(0)]]);
}

#[test]
fn test_meet_aggr_empty() {
    let mut db = DbInstance::default();
    let res = db.run_default("?[min(a)] := a in []").unwrap().rows;
    assert_eq!(res, vec![vec![DataValue::Null]]);

    let res = db
        .run_default("?[min(a), count(a)] := a in []")
        .unwrap()
        .rows;
    assert_eq!(res, vec![vec![DataValue::Null, whole(0)]]);
}

#[test]
fn custom_aggr_meet_in_recursion_converges() {
    let mut db = DbInstance::new("mem", "", "").unwrap();
    db.register_custom_aggr("maxi".to_string(), true, Box::new(TestMaxi))
        .unwrap();
    let res = db
        .run_default(
            r#"
        edges[f, t, w] <- [[1, 2, 10.0], [2, 3, 5.0], [1, 3, 2.0], [3, 4, 30.0]]
        reach[t, maxi(w)] := edges[1, t, w]
        reach[t, maxi(w2)] := reach[m, w], edges[m, t, w1], w2 = max(w, w1)
        ?[t, w] := reach[t, w]
        "#,
        )
        .unwrap()
        ;
    let rows = &res.rows;
    assert_eq!(rows.len(), 3, "{:?}", rows);
    assert!(rows.iter().any(|r| r[0] == whole(4) && r[1] == frac(30.0)), "{:?}", rows);
}

#[test]
fn custom_aggr_non_meet_rejected_in_recursion() {
    let mut db = DbInstance::new("mem", "", "").unwrap();
    db.register_custom_aggr("summy".to_string(), false, Box::new(TestAdder))
        .unwrap();
    let err = db
        .run_default(
            r#"
        edges[f, t] <- [[1, 2], [2, 3]]
        reach[t, summy(x)] := edges[1, t], x = 1
        reach[t, summy(x)] := reach[m, x], edges[m, t]
        ?[t, x] := reach[t, x]
        "#,
        )
        .expect_err("non-meet custom aggregate in recursion must be rejected");
    let msg = err.report();
    assert!(
        msg.contains("stratif") || msg.contains("aggregation") || msg.contains("recursion"),
        "{msg}"
    );
}

#[test]
fn custom_aggr_non_recursive_uses_normal_adapter() {
    let mut db = DbInstance::new("mem", "", "").unwrap();
    db.register_custom_aggr("maxi2".to_string(), true, Box::new(TestMaxi))
        .unwrap();
    let res = db
        .run_default("?[maxi2(x)] := x in [3, 9, 4]")
        .unwrap()
        ;
    assert_eq!(res.rows, vec![vec![whole(9)]]);
    db.register_custom_aggr("maxinm".to_string(), false, Box::new(TestMaxi))
        .unwrap();
    let res = db
        .run_default("?[maxinm(x)] := x in [3, 9, 4]")
        .unwrap()
        ;
    assert_eq!(res.rows, vec![vec![whole(9)]]);
    let err = db
        .run_default("?[maxinm(x, 5)] := x in [3, 9, 4]")
        .expect_err("args must be rejected");
    assert!(err.report().contains("takes no arguments"), "{}", err.report());
}

#[test]
fn custom_aggr_registry_policy() {
    let mut db = DbInstance::new("mem", "", "").unwrap();
    let err = db
        .register_custom_aggr("min".to_string(), true, Box::new(TestMaxi))
        .expect_err("builtin name must be reserved");
    assert!(err.report().contains("reserved"), "{}", err.report());
    db.register_custom_aggr("dup".to_string(), true, Box::new(TestMaxi))
        .unwrap();
    let err = db
        .register_custom_aggr("dup".to_string(), true, Box::new(TestMaxi))
        .expect_err("duplicate must be rejected");
    assert!(err.report().contains("already registered"), "{}", err.report());
    assert!(db.unregister_custom_aggr("dup").unwrap());
    db.register_custom_aggr("dup".to_string(), true, Box::new(TestMaxi))
        .unwrap();
    let err = db
        .run_default("?[nosuch(x)] := x in [1]")
        .expect_err("unknown aggregate must fail");
    assert!(err.report().contains("nosuch"), "{}", err.report());
}

#[test]
fn custom_aggr_rejected_in_trigger_scripts() {
    let mut db = DbInstance::new("mem", "", "").unwrap();
    db.register_custom_aggr("maxi3".to_string(), true, Box::new(TestMaxi))
        .unwrap();
    db.run_default(":create t_src {k => v: Int}").unwrap();
    db.run_default(":create t_dst {k => v}").unwrap();
    let err = db
        .run_default(
            "::set_triggers t_src on put { ?[k, maxi3(v)] := _new[k, v] :put t_dst {k => v} }",
        )
        .expect_err("custom aggregate in trigger script must be rejected");
    assert!(err.report().contains("maxi3"), "{}", err.report());
}

#[test]
#[should_panic(expected = "non-idempotent meet aggregate")]
fn custom_aggr_debug_probe_catches_non_absorptive_meet() {
    let mut db = DbInstance::new("mem", "", "").unwrap();
    db.register_custom_aggr("badsum".to_string(), true, Box::new(TestAdder))
        .unwrap();
    let res = db.run_default(
        r#"
        edges[f, t] <- [[1, 2], [1, 3]]
        reach[f, badsum(x)] := edges[f, t], x = 1.0
        ?[f, x] := reach[f, x]
        "#,
    );
    if let Err(err) = res {
        panic!("{}", err.report());
    }
}

#[test]
fn meet_and_or_report_change_not_stability() {
    let and = MeetAggrAnd;
    let mut v = DataValue::from(true);
    assert!(and.update(&mut v, &DataValue::from(false)).unwrap());
    assert!(!and.update(&mut v, &DataValue::from(false)).unwrap());
    assert!(!and.update(&mut v, &DataValue::from(true)).unwrap());
    let or = MeetAggrOr;
    let mut v = DataValue::from(false);
    assert!(or.update(&mut v, &DataValue::from(true)).unwrap());
    assert!(!or.update(&mut v, &DataValue::from(true)).unwrap());
    assert!(!or.update(&mut v, &DataValue::from(false)).unwrap());
}

#[test]
fn bounded_meet_top_k_basics() {
    let mut db = DbInstance::new("mem", "", "").unwrap();
    let res = db
        .run_default(
            r#"
        data[g, pack] <- [[1, ['a', 3.0]], [1, ['b', 1.0]], [1, ['c', 2.0]],
                          [1, ['d', 4.0]], [2, ['e', 5.0]]]
        ?[g, best] := data[g, pack], best = pack
        "#,
        )
        .unwrap();
    assert_eq!(res.rows.len(), 5, "sanity: data visible");
    let res = db
        .run_default(
            r#"
        data[g, pack] <- [[1, ['a', 3.0]], [1, ['b', 1.0]], [1, ['c', 2.0]],
                          [1, ['d', 4.0]], [2, ['e', 5.0]]]
        ?[g, min_cost_k(pack, 3)] := data[g, pack]
        "#,
        )
        .unwrap()
        ;
    assert_eq!(
        res.rows,
        vec![vec![whole(1), list(vec![text("b"), frac(1.0)])], vec![whole(1), list(vec![text("c"), frac(2.0)])], vec![whole(1), list(vec![text("a"), frac(3.0)])], vec![whole(2), list(vec![text("e"), frac(5.0)])]],
        "{res:?}"
    );
    let res = db
        .run_default(
            r#"
        data[g, pack] <- [[1, ['a', 3.0]], [1, ['b', 1.0]], [2, ['e', 5.0]]]
        ?[min_cost_k(pack, 2)] := data[g, pack]
        "#,
        )
        .unwrap()
        ;
    assert_eq!(
        res.rows,
        vec![vec![list(vec![text("b"), frac(1.0)])], vec![list(vec![text("a"), frac(3.0)])]],
        "{res:?}"
    );
}

#[test]
fn bounded_meet_k_shortest_paths() {
    let mut db = DbInstance::new("mem", "", "").unwrap();
    let res = db
        .run_default(
            r#"
        edge[f, t, w] <- [[1, 2, 1.0], [2, 3, 1.0], [1, 3, 3.0], [3, 1, 1.0]]
        sp[t, min_cost_k(pack, 2)] := t = 1, pack = [[1], 0.0]
        sp[t, min_cost_k(pack, 2)] := sp[m, p], edge[m, t, w],
                                      pack = [concat(first(p), [t]), last(p) + w]
        ?[pack] := sp[3, pack]
        "#,
        )
        .unwrap()
        ;
    assert_eq!(
        res.rows,
        vec![vec![list(vec![list(vec![whole(1), whole(2), whole(3)]), frac(2.0)])], vec![list(vec![list(vec![whole(1), whole(3)]), frac(3.0)])]],
        "{res:?}"
    );
}

#[test]
fn bounded_meet_divergence_capped() {
    let mut db = DbInstance::new("mem", "", "").unwrap();
    let err = db
        .run_default(
            r#"
        edge[f, t, w] <- [[1, 2, -1.0], [2, 1, -1.0]]
        sp[t, min_cost_k(pack, 2)] := t = 1, pack = [[1], 0.0]
        sp[t, min_cost_k(pack, 2)] := sp[m, p], edge[m, t, w],
                                      pack = [concat(first(p), [t]), last(p) + w]
        ?[pack] := sp[2, pack]
        "#,
        )
        .expect_err("negative cycle must hit the epoch cap");
    assert!(err.report().contains("did not converge"), "{}", err.report());
}

#[test]
fn bounded_meet_relay_recursion_unstratifiable() {
    let mut db = DbInstance::new("mem", "", "").unwrap();
    let err = db
        .run_default(
            r#"
        edge[f, t, w] <- [[1, 2, -1.0], [2, 1, -1.0]]
        relay[m, p] := sp[m, p]
        sp[t, min_cost_k(pack, 2)] := t = 1, pack = [[1], 0.0]
        sp[t, min_cost_k(pack, 2)] := relay[m, p], edge[m, t, w],
                                      pack = [concat(first(p), [t]), last(p) + w]
        ?[pack] := sp[2, pack]
        "#,
        )
        .expect_err("relay recursion through a bounded-meet head must not stratify");
    assert!(err.report().contains("unstratifiable"), "{}", err.report());
}

#[test]
fn meet_bit_and_or_report_changes_accurately() {
    let and = MeetAggrBitAnd;
    let mut v = DataValue::Bytes(vec![0xf0]);
    assert!(!and.update(&mut v, &DataValue::Bytes(vec![0xff])).unwrap());
    assert_eq!(v, DataValue::Bytes(vec![0xf0]));
    assert!(and.update(&mut v, &DataValue::Bytes(vec![0x0f])).unwrap());
    assert_eq!(v, DataValue::Bytes(vec![0x00]));

    let or = MeetAggrBitOr;
    let mut v = DataValue::Bytes(vec![0xff]);
    assert!(!or.update(&mut v, &DataValue::Bytes(vec![0x0f])).unwrap());
    assert_eq!(v, DataValue::Bytes(vec![0xff]));
    let mut v = DataValue::Bytes(vec![0x0f]);
    assert!(or.update(&mut v, &DataValue::Bytes(vec![0xf0])).unwrap());
    assert_eq!(v, DataValue::Bytes(vec![0xff]));

    let mut v = DataValue::Bytes(vec![]);
    assert!(and.update(&mut v, &DataValue::Bytes(vec![0xff])).unwrap());
    assert_eq!(v, DataValue::Bytes(vec![0xff]));
    let mut v = DataValue::Bytes(vec![]);
    assert!(or.update(&mut v, &DataValue::Bytes(vec![0x0f])).unwrap());
    assert_eq!(v, DataValue::Bytes(vec![0x0f]));
}

#[test]
fn bounded_meet_validation() {
    let mut db = DbInstance::new("mem", "", "").unwrap();
    db.run_default("?[g, pack] <- [[1, ['a', 1.0]]] :create bm {g, pack}")
        .unwrap();
    let err = db
        .run_default("?[g, min_cost_k(pack)] := *bm[g, pack]")
        .expect_err("missing k");
    assert!(
        err.report().contains("exactly one argument"), "{}", err.report()
    );
    let err = db
        .run_default("?[g, min_cost_k(pack, 0)] := *bm[g, pack]")
        .expect_err("k = 0");
    assert!(err.report().contains("positive integer"), "{}", err.report());
    let err = db
        .run_default("?[min_cost_k(pack, 2), count(g)] := *bm[g, pack]")
        .expect_err("mixed head");
    assert!(
        err.report().contains("bounded-meet aggregate"), "{}", err.report()
    );
    let err = db
        .run_default("?[min_cost_k(pack, 2), g] := *bm[g, pack]")
        .expect_err("not last");
    assert!(
        err.report().contains("bounded-meet aggregate"), "{}", err.report()
    );
    let err = db
        .run_default("?[g, min_cost_k(g, 2)] := *bm[g, pack]")
        .expect_err("bad pack");
    assert!(
        err.report().contains("cannot compute 'min_cost_k'"), "{}", err.report()
    );
}

#[test]
fn bounded_meet_does_not_cap_costratified_recursion() {
    let mut db = DbInstance::new("mem", "", "").unwrap();
    let res = db
        .run_default(
            r#"
        base[pack] <- [[['a', 1.0]], [['b', 2.0]]]
        best[min_cost_k(pack, 2)] := base[pack]
        w[a] := a = 0
        w[a] := w[b], a = b + 1, a < 4300
        ?[count(a)] := w[a], best[p]
        "#,
        )
        .unwrap()
        ;
    assert_eq!(res.rows, vec![vec![whole(8600)]], "{:?}", res.rows);
}

#[test]
fn semiring_tags_persist_in_rows() {
    let storage = {
        let mut db = DbInstance::new("sqlite", "", "").unwrap();
        db.run_default(":create sp_out {dst: Int => pack}").unwrap();
        let sp_script = |put: &str| {
            format!(
                r#"
            edge[f, t, w] <- [[1, 2, 1.0], [2, 3, 1.0], [1, 3, 3.0]]
            sp[t, min_cost(pack)] := t = 1, pack = [[1], 0.0]
            sp[t, min_cost(pack)] := sp[m, p], edge[m, t, w],
                                     pack = [concat(first(p), [t]), last(p) + w]
            ?[dst, pack] := sp[dst, pack]
            {put}
            "#
            )
        };
        db.run_default(&sp_script(":put sp_out {dst => pack}"))
            .unwrap();
        db.run_default(":create topk_out {dst: Int, pack => }")
            .unwrap();
        db.run_default(
            r#"
            edge[f, t, w] <- [[1, 2, 1.0], [2, 3, 1.0], [1, 3, 3.0]]
            sp[t, min_cost_k(pack, 2)] := t = 1, pack = [[1], 0.0]
            sp[t, min_cost_k(pack, 2)] := sp[m, p], edge[m, t, w],
                                          pack = [concat(first(p), [t]), last(p) + w]
            ?[dst, pack] := sp[dst, pack]
            :put topk_out {dst, pack}
            "#,
        )
        .unwrap();
        db.run_default(":create belief {dst: Int, tt: TxTime => pack}")
            .unwrap();
        db.run_default(&sp_script(":put belief {dst => pack}"))
            .unwrap();
        db.run_default(
            r#"
            edge[f, t, w] <- [[1, 2, 1.0], [2, 3, 1.0], [1, 3, 0.5]]
            sp[t, min_cost(pack)] := t = 1, pack = [[1], 0.0]
            sp[t, min_cost(pack)] := sp[m, p], edge[m, t, w],
                                     pack = [concat(first(p), [t]), last(p) + w]
            ?[dst, pack] := sp[dst, pack]
            :put belief {dst => pack}
            "#,
        )
        .unwrap();
        db.register_custom_aggr("fuse2".to_string(), true, Box::new(TestMaxi))
            .unwrap();
        db.run_default(":create fused {k: Int => v}").unwrap();
        db.run_default(
            r#"
            data[k, v] <- [[1, 0.9], [1, 0.5]]
            agg[k, fuse2(v)] := data[k, v]
            ?[k, v] := agg[k, v]
            :put fused {k => v}
            "#,
        )
        .unwrap();
        db.into_storage()
    };
    let mut db = DbInstance::open("sqlite", storage).unwrap();
    let res = db
        .run_default("?[dst, pack] := *sp_out[dst, pack]")
        .unwrap()
        ;
    assert_eq!(
        res.rows,
        vec![vec![whole(1), list(vec![list(vec![whole(1)]), frac(0.0)])], vec![whole(2), list(vec![list(vec![whole(1), whole(2)]), frac(1.0)])], vec![whole(3), list(vec![list(vec![whole(1), whole(2), whole(3)]), frac(2.0)])]],
        "{res:?}"
    );
    let res = db
        .run_default("?[dst, pack] := *topk_out[dst, pack]")
        .unwrap()
        ;
    assert_eq!(res.rows.len(), 4, "{:?}", res.rows);
    let res = db
        .run_default("?[pack] := *belief[3, t, pack]")
        .unwrap()
        ;
    assert_eq!(res.rows, vec![vec![list(vec![list(vec![whole(1), whole(3)]), frac(0.5)])]], "{:?}", res.rows);
    let res = db
        .run_default("::history belief [[3]]")
        .unwrap()
        ;
    let rows = &res.rows;
    assert_eq!(rows.len(), 2, "{:?}", rows);
    let first_tt = num(&rows[1][2]);
    let res = db
        .run_default(&format!(
            "?[pack] := *belief[3, t, pack @ (tt: {first_tt})]"
        ))
        .unwrap()
        ;
    assert_eq!(
        res.rows,
        vec![vec![list(vec![list(vec![whole(1), whole(2), whole(3)]), frac(2.0)])]],
        "{res:?}"
    );
    let res = db
        .run_default("?[k, v] := *fused[k, v]")
        .unwrap()
        ;
    assert_eq!(res.rows, vec![vec![whole(1), frac(0.9)]], "{:?}", res.rows);
    let err = db
        .run_default("data[k, v] <- [[1, 0.9]] ?[k, fuse2(v)] := data[k, v]")
        .expect_err("unregistered aggregate must not resolve");
    assert!(err.report().contains("not found"), "{}", err.report());
}

#[test]
fn the_adder_adds_every_number() {
    let add = |left: DataValue, right: DataValue| {
        let mut l = left;
        assert_eq!(TestAdder.update(&mut l, &right).ok(), Some(true));
        l
    };
    let large = |n: i64| DataValue::Real(n as i128 * 1_000_000);
    assert_eq!(add(TestAdder.init_val(), DataValue::Int(10_000_000_000_000)), large(10_000_000_000_000));
    assert_eq!(add(frac(7.0), DataValue::Int(9_223_372_036_855)), large(9_223_372_036_862));
    assert_eq!(add(DataValue::Int(9_223_372_036_855), DataValue::Int(1)), large(9_223_372_036_856));
    assert_eq!(add(DataValue::Int(i64::MAX), DataValue::Int(0)), large(i64::MAX));
    // What is no number counts as zero.
    assert_eq!(add(DataValue::from("a"), DataValue::Null), frac(0.0));
    assert_eq!(add(DataValue::from("a"), frac(1.5)), frac(1.5));
    // A number that is added twice counts twice.
    let once = add(large(5_000_000_000_000), large(5_000_000_000_000));
    assert_eq!(once, large(10_000_000_000_000));
    assert_eq!(add(once, large(5_000_000_000_000)), large(15_000_000_000_000));
    // Neither the order of two numbers nor that of many matters.
    let top = DataValue::Real(i128::MAX);
    assert_eq!(add(top.clone(), frac(1.0)), add(frac(1.0), top.clone()));
    let mut up = TestAdder.init_val();
    let mut down = TestAdder.init_val();
    let all = [3, -8, 3, 4_000_000_000_000_000, 0, -8];
    for k in 0..all.len() {
        up = add(up, DataValue::Int(all[k]));
        down = add(down, DataValue::Int(all[all.len() - 1 - k]));
    }
    assert_eq!(up, large(3_999_999_999_999_990));
    assert_eq!(down, up);
}
