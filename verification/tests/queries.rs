//! Queries, writes and scripts.
use mnestic::db::{Db, MemStorage, Params, ScriptMutability};
use mnestic::fts::{TokenizerCache, TokenizerConfig};
use mnestic::instance::DbInstance;
use mnestic::value::DataValue;

fn whole(n: i64) -> DataValue {
    DataValue::Int(n)
}

fn frac(x: f64) -> DataValue {
    DataValue::Real((x * 1_000_000.0).round() as i128)
}

fn text(s: &str) -> DataValue {
    DataValue::from(s)
}

fn no_rows() -> Vec<Vec<DataValue>> {
    vec![]
}

#[test]
fn stale_db_handle_does_not_reuse_relation_id() {
    let mut storage = MemStorage::default();
    let mut stale_db = Db::new(&storage);
    let mut other_db = Db::new(&storage);

    other_db
        .run_script(
            &mut storage,
            ":create hidden {k: Int => v: String}",
            &Params::new(),
            ScriptMutability::Mutable,
        )
        .unwrap();
    stale_db
        .run_script(
            &mut storage,
            ":create alias {k: Int => v: String}",
            &Params::new(),
            ScriptMutability::Mutable,
        )
        .unwrap();

    let hidden = storage.get_relation("hidden").unwrap();
    let alias = storage.get_relation("alias").unwrap();
    assert_ne!(hidden.id, alias.id);
}

#[test]
fn test_limit_offset() {
    let mut db = DbInstance::default();
    let res = db
        .run_default("?[a] := a in [5,3,1,2,4] :limit 2")
        .unwrap()
        ;
    assert_eq!(res.rows, vec![vec![whole(3)], vec![whole(5)]]);
    let res = db
        .run_default("?[a] := a in [5,3,1,2,4] :limit 2 :offset 1")
        .unwrap()
        ;
    assert_eq!(res.rows, vec![vec![whole(1)], vec![whole(3)]]);
    let res = db
        .run_default("?[a] := a in [5,3,1,2,4] :limit 2 :offset 4")
        .unwrap()
        ;
    assert_eq!(res.rows, vec![vec![whole(4)]]);
    let res = db
        .run_default("?[a] := a in [5,3,1,2,4] :limit 2 :offset 5")
        .unwrap()
        ;
    assert_eq!(res.rows, no_rows());
}

#[test]
fn hidden_relations_cannot_be_read_indirectly() {
    let mut db = DbInstance::default();
    db.run_default(":create secret {id => value}").unwrap();
    db.run_default("?[id, value] <- [[1, 'classified']] :put secret {id => value}")
        .unwrap();
    db.run_default("::access_level hidden secret").unwrap();

    let negated = db
        .run_default("candidates[id] <- [[1], [2]] ?[id] := candidates[id], not *secret{id}")
        .expect_err("negation must not reveal membership in a hidden relation");
    assert!(
        negated.report().contains("Insufficient access level"), "{}", negated.report()
    );

    let fixed_rule = db
        .run_default(
            "?[rank, id, value] <~ ReorderSort(*secret[id, value], out: [id, value], sort_by: id)",
        )
        .expect_err("fixed rules must not scan a hidden relation");
    assert!(
        fixed_rule.report().contains("Insufficient access level"), "{}", fixed_rule.report()
    );
}

#[test]
fn test_layers() {

    let mut db = DbInstance::default();
    let res = db
        .run_default(
            r#"
        y[a] := a in [1,2,3]
        x[sum(a)] := y[a]
        x[sum(a)] := a in [4,5,6]
        ?[sum(a)] := x[a]
        "#,
        )
        .unwrap()
        .rows;
    assert_eq!(res[0][0], frac(21.0))
}

#[test]
fn test_conditions() {
    let mut db = DbInstance::default();
    db.run_default(
        r#"
        {
            ?[code] <- [['a'],['b'],['c']]
            :create airport {code}
        }
        {
            ?[fr, to, dist] <- [['a', 'b', 1.1], ['a', 'c', 0.5], ['b', 'c', 9.1]]
            :create route {fr, to => dist}
        }
        "#,
    )
    .unwrap();
    let res = db
        .run_default(
            r#"
        r[code, dist] := *airport{code}, *route{fr: code, dist};
        ?[dist] := r['a', dist], dist > 0.5, dist <= 1.1;
        "#,
        )
        .unwrap()
        .rows;
    assert_eq!(res[0][0], frac(1.1))
}

#[test]
fn test_classical() {
    let mut db = DbInstance::default();
    let res = db
        .run_default(
            r#"
parent[] <- [['joseph', 'jakob'],
             ['jakob', 'isaac'],
             ['isaac', 'abraham']]
grandparent[gcld, gp] := parent[gcld, p], parent[p, gp]
?[who] := grandparent[who, 'abraham']
        "#,
        )
        .unwrap()
        .rows;
    println!("{:?}", res);
    assert_eq!(res[0][0], DataValue::from("jakob"))
}

#[test]
fn default_columns() {
    let mut db = DbInstance::default();

    db.run_default(
        r#"
            :create status {uid: String, ts default now() => quitted: Bool, mood: String}
            "#,
    )
    .unwrap();

    db.run_default(
        r#"
        ?[uid, quitted, mood] <- [['z', true, 'x']]
            :put status {uid => quitted, mood}
        "#,
    )
    .unwrap();
}

#[test]
fn rm_does_not_need_all_keys() {
    let mut db = DbInstance::default();
    db.run_default(":create status {uid => mood}").unwrap();
    assert!(db
        .run_default("?[uid, mood] <- [[1, 2]] :put status {uid => mood}",)
        .is_ok());
    assert!(db
        .run_default("?[uid, mood] <- [[2]] :put status {uid}",)
        .is_err());
    assert!(db
        .run_default("?[uid, mood] <- [[3, 2]] :rm status {uid => mood}",)
        .is_ok());
    assert!(db.run_default("?[uid] <- [[1]] :rm status {uid}").is_ok());
}

#[test]
fn do_not_unify_underscore() {
    let mut db = DbInstance::default();
    let res = db
        .run_default(
            r#"
        r1[] <- [[1, 'a'], [2, 'b']]
        r2[] <- [[2, 'B'], [3, 'C']]

        ?[l1, l2] := r1[_ , l1], r2[_ , l2]
        "#,
        )
        .unwrap()
        .rows;
    assert_eq!(res.len(), 4);

    let res = db.run_default(
        r#"
        ?[_] := _ = 1
        "#,
    );
    assert!(res.is_err());

    let res = db
        .run_default(
            r#"
        ?[x] := x = 1, _ = 1, _ = 2
        "#,
        )
        .unwrap()
        .rows;

    assert_eq!(res.len(), 1);
}

#[test]
fn imperative_script() {}

#[test]
fn returning_relations() {
    let mut db = DbInstance::default();
    let res = db
        .run_default(
            r#"
        {:create _xxz {a}}
        {?[a] := a in [5,4,1,2,3] :put _xxz {a}}
        {?[a] := *_xxz[a], a % 2 == 0 :rm _xxz {a}}
        {?[a] := *_xxz[b], a = b * 2}
        "#,
        )
        .unwrap();
    assert_eq!(res.rows, vec![vec![whole(2)], vec![whole(6)], vec![whole(10)]]);
    let res = db.run_default(
        r#"
        {?[a] := *_xxz[b], a = b * 2}
        "#,
    );
    assert!(res.is_err());
}

#[test]
fn test_trigger() {
    let mut db = DbInstance::default();
    db.run_default(":create friends {fr: Int, to: Int => data: Any}")
        .unwrap();
    db.run_default(":create friends.rev {to: Int, fr: Int => data: Any}")
        .unwrap();
    db.run_default(
        r#"
        ::set_triggers friends

        on put {
            ?[fr, to, data] := _new[fr, to, data]

            :put friends.rev{ to, fr => data}
        }
        on rm {
            ?[fr, to] := _old[fr, to, data]

            :rm friends.rev{ to, fr }
        }
        "#,
    )
    .unwrap();
    db.run_default(r"?[fr, to, data] <- [[1,2,3]] :put friends {fr, to => data}")
        .unwrap();
    let ret = db
        .export_relations(&["friends", "friends.rev"])
        .unwrap();
    let frs = ret.get("friends").unwrap();
    assert_eq!(
        vec![whole(1), whole(2), whole(3)],
        frs.rows[0]
    );

    let frs_rev = ret.get("friends.rev").unwrap();
    assert_eq!(
        vec![whole(2), whole(1), whole(3)],
        frs_rev.rows[0]
    );
    db.run_default(r"?[fr, to] <- [[1,2], [2,3]] :rm friends {fr, to}")
        .unwrap();
    let ret = db
        .export_relations(&["friends", "friends.rev"])
        .unwrap();
    let frs = ret.get("friends").unwrap();
    assert!(frs.rows.is_empty());
}

#[test]
fn test_update() {
    let mut db = DbInstance::default();
    db.run_default(":create friends {fr: Int, to: Int => a: Any, b: Any, c: Any}")
        .unwrap();
    db.run_default("?[fr, to, a, b, c] <- [[1,2,3,4,5]] :put friends {fr, to => a, b, c}")
        .unwrap();
    let res = db
        .run_default("?[fr, to, a, b, c] := *friends{fr, to, a, b, c}")
        .unwrap()
        ;
    assert_eq!(res.rows[0], vec![whole(1), whole(2), whole(3), whole(4), whole(5)]);
    db.run_default("?[fr, to, b] <- [[1, 2, 100]] :update friends {fr, to => b}")
        .unwrap();
    let res = db
        .run_default("?[fr, to, a, b, c] := *friends{fr, to, a, b, c}")
        .unwrap()
        ;
    assert_eq!(res.rows[0], vec![whole(1), whole(2), whole(3), whole(100), whole(5)]);
}

#[test]
fn index_respects_base_relation_access_level() {
    let mut db = DbInstance::default();
    db.run_default(":create secret {id: Int => value: String}")
        .unwrap();
    db.run_default("?[id, value] <- [[1, 'classified']] :put secret {id => value}")
        .unwrap();
    db.run_default("::index create secret:by_value {value}")
        .unwrap();
    db.run_default("::access_level hidden secret").unwrap();

    assert!(db
        .run_default("?[id, value] := *secret:by_value{value, id}")
        .is_err());
    assert!(db
        .export_relations(&["secret:by_value"])
        .is_err());
    assert!(db
        .run_default(
            "candidates[value] <- [['classified'], ['public']] \
             ?[value] := candidates[value], not *secret:by_value{value}"
        )
        .is_err());
    assert!(db
        .run_default(
            "?[rank, value, id] <~ ReorderSort(*secret:by_value[value, id], \
             out: [value, id], sort_by: value)"
        )
        .is_err());
    assert!(db.run_default("%return secret:by_value").is_err());
    assert!(db
        .run_default("::index create secret:another {value}")
        .is_err());
}

#[test]
fn test_json_objects() {
    let mut db = DbInstance::default();
    db.run_default("?[a] := a = {'a': 1}").unwrap();
    db.run_default(
        r"?[a] := a = {
            'a': 1
        }",
    )
    .unwrap();
}

#[test]
fn test_multi_tx() {
    let mut db = DbInstance::default();
    let mut tx = db.multi_transaction(true);
    tx.run_script(&db, ":create a {a}", &Params::new()).unwrap();
    tx.run_script(&db, "?[a] <- [[1]] :put a {a}", &Params::new())
        .unwrap();
    assert!(tx.run_script(&db, ":create a {a}", &Params::new()).is_err());
    tx.run_script(&db, "?[a] <- [[2]] :put a {a}", &Params::new())
        .unwrap();
    tx.run_script(&db, "?[a] <- [[3]] :put a {a}", &Params::new())
        .unwrap();
    tx.commit(&mut db).unwrap();
    assert_eq!(
        db.run_default("?[a] := *a[a]").unwrap().rows,
        vec![vec![whole(1)], vec![whole(2)], vec![whole(3)]]
    );

    let mut db = DbInstance::default();
    let mut tx = db.multi_transaction(true);
    tx.run_script(&db, ":create a {a}", &Params::new()).unwrap();
    tx.run_script(&db, "?[a] <- [[1]] :put a {a}", &Params::new())
        .unwrap();
    assert!(tx.run_script(&db, ":create a {a}", &Params::new()).is_err());
    tx.run_script(&db, "?[a] <- [[2]] :put a {a}", &Params::new())
        .unwrap();
    tx.run_script(&db, "?[a] <- [[3]] :put a {a}", &Params::new())
        .unwrap();
    tx.abort().unwrap();
    assert!(db.run_default("?[a] := *a[a]").is_err());
}

#[test]
fn read_only_multi_tx_rejects_writes() {
    let mut db = DbInstance::default();
    db.run_default(":create a {a}").unwrap();
    db.run_default("?[a] <- [[1]] :put a {a}").unwrap();

    let mut tx = db.multi_transaction(false);
    let err = tx
        .run_script(&db, "?[a] <- [[2]] :put a {a}", &Params::new())
        .expect_err("a read-only multi-transaction must reject writes");
    assert!(err.report().contains("read-only transaction"));
    assert_eq!(
        tx.run_script(&db, "?[a] := *a[a]", &Params::new())
            .unwrap()
            .rows,
        vec![vec![whole(1)]]
    );
    tx.abort().unwrap();

    assert_eq!(
        db.run_default("?[a] := *a[a]").unwrap().rows,
        vec![vec![whole(1)]]
    );
}

#[test]
fn durable_writes_not_honored_off_rocksdb() {
    let mut db = DbInstance::new("mem", "", "").unwrap();
    assert!(!db.set_durable_writes(true));
}

#[test]
fn filtering() {
    let mut db = DbInstance::default();
    let res = db
        .run_default(
            r"
        {
            ?[x, y] <- [[1, 2]]
            :create _rel {x => y}
            :returning
        }
        {
            ?[x, y] := x = 1, *_rel{x, y: 3}, y = 2
        }
    ",
        )
        .unwrap();
    assert_eq!(0, res.rows.len());

    let res = db
        .run_default(
            r"
        {
            ?[x, u, y] <- [[1, 0, 2]]
            :create _rel {x, u => y}
            :returning
        }
        {
            ?[x, y] := x = 1, *_rel{x, y: 3}, y = 2
        }
    ",
        )
        .unwrap();
    assert_eq!(0, res.rows.len());
}

#[test]
fn tokenizers() {
    let tokenizers = TokenizerCache::default();
    let tokenizer = tokenizers
        .get(
            "simple",
            &TokenizerConfig {
                name: "Simple".into(),
                args: vec![],
            },
            &[],
        )
        .unwrap();

    let mut token_stream = tokenizer.token_stream("It is closer to Apache Lucene than to Elasticsearch or Apache Solr in the sense it is not an off-the-shelf search engine server, but rather a crate that can be used to build such a search engine.");
    while let Some(token) = token_stream.next() {
        println!("Token {:?}", token.text);
    }

    println!("XXXXXXXXXXXXX");
}

#[test]
fn ensure_not() {
    let mut db = DbInstance::new("mem", "", "").unwrap();
    db.run_default(
        r"
    %ignore_error { :create id_alloc{id: Int => next_id: Int, last_id: Int}}
%ignore_error {
    ?[id, next_id, last_id] <- [[0, 1, 1000]];
    :ensure_not id_alloc{id => next_id, last_id}
}
    ",
    )
    .unwrap();
}

#[test]
fn insertion() {
    let mut db = DbInstance::new("mem", "", "").unwrap();
    db.run_default(r":create a {x => y}").unwrap();
    assert!(db
        .run_default(r"?[x, y] <- [[1, 2]] :insert a {x => y}",)
        .is_ok());
    assert!(db
        .run_default(r"?[x, y] <- [[1, 3]] :insert a {x => y}",)
        .is_err());
}

#[test]
fn deletion() {
    let mut db = DbInstance::new("mem", "", "").unwrap();
    db.run_default(r":create a {x => y}").unwrap();
    assert!(db.run_default(r"?[x] <- [[1]] :delete a {x}").is_err());
    assert!(db
        .run_default(r"?[x, y] <- [[1, 2]] :insert a {x => y}",)
        .is_ok());
    db.run_default(r"?[x] <- [[1]] :delete a {x}").unwrap();
}

#[test]
fn into_payload() {
    let mut db = DbInstance::new("mem", "", "").unwrap();
    db.run_default(r":create a {x => y}").unwrap();
    db.run_default(r"?[x, y] <- [[1, 2], [3, 4]] :insert a {x => y}")
        .unwrap();

    let mut res = db.run_default(r"?[x, y] := *a[x, y]").unwrap();
    assert_eq!(res.rows.len(), 2);

    let delete = res.clone().into_payload("a", "rm");
    db.run_script(delete.0.as_str(), &delete.1, ScriptMutability::Mutable)
        .unwrap();
    assert_eq!(
        db.run_default(r"?[x, y] := *a[x, y]").unwrap().rows.len(),
        0
    );

    db.run_default(r":create b {m => n}").unwrap();
    res.headers = vec!["m".into(), "n".into()];
    let put = res.into_payload("b", "put");
    db.run_script(put.0.as_str(), &put.1, ScriptMutability::Mutable)
        .unwrap();
    assert_eq!(
        db.run_default(r"?[m, n] := *b[m, n]").unwrap().rows.len(),
        2
    );
}

#[test]
fn returning() {
    let mut db = DbInstance::new("mem", "", "").unwrap();
    db.run_default(":create a {x => y}").unwrap();
    let res = db
        .run_default(r"?[x, y] <- [[1, 2]] :insert a {x => y} ")
        .unwrap();
    assert_eq!(res.rows, vec![vec![text("OK")]]);

    let res = db
        .run_default(r"?[x, y] <- [[1, 3], [2, 4]] :returning :put a {x => y} ")
        .unwrap();
    assert_eq!(
        res.rows,
        vec![vec![text("inserted"), whole(1), whole(3)], vec![text("inserted"), whole(2), whole(4)], vec![text("replaced"), whole(1), whole(2)]]
    );

    let res = db
        .run_default(r"?[x] <- [[1], [4]] :returning :rm a {x} ")
        .unwrap();
    assert_eq!(
        res.rows,
        vec![vec![text("requested"), whole(1), DataValue::Null], vec![text("requested"), whole(4), DataValue::Null], vec![text("deleted"), whole(1), whole(3)]]
    );
    db.run_default(r":create todo{id:Uuid default rand_uuid_v1() => label: String, done: Bool}")
        .unwrap();
    let res = db
        .run_default(r"?[label,done] <- [['milk',false]] :put todo{label,done} :returning")
        .unwrap();
    assert_eq!(res.rows[0].len(), 4);
    for title in res.headers.iter() {
        println!("{}", title);
    }
    println!();
    for row in res.rows.iter() {
        println!("{:?}", row);
    }
}

#[test]
fn parser_corner_case() {
    let mut db = DbInstance::new("mem", "", "").unwrap();
    db.run_default(r#"?[x] := x = 1 or x = 2"#).unwrap();
    db.run_default(r#"?[C] := C = 1  orx[C] := C = 1"#).unwrap();
    db.run_default(r#"?[C] := C = true, C  inx[C] := C = 1"#)
        .unwrap();
    db.run_default(r#"?[k] := k in int_range(300)"#).unwrap();
    db.run_default(r#"ywcc[a] <- [[1]] noto[A] := ywcc[A] ?[A] := noto[A]"#)
        .unwrap();
}

#[test]
fn as_store_in_imperative_script() {
    let mut db = DbInstance::new("mem", "", "").unwrap();
    let res = db
        .run_default(
            r#"
    { ?[x, y, z] <- [[1, 2, 3], [4, 5, 6]] } as _store
    { ?[x, y, z] := *_store{x, y, z} }
    "#,
        )
        .unwrap();
    assert_eq!(res.rows, vec![vec![whole(1), whole(2), whole(3)], vec![whole(4), whole(5), whole(6)]]);
    let res = db
        .run_default(
            r#"
    {
        ?[y] <- [[1], [2], [3]]
        :create a {x default rand_uuid_v1() => y}
        :returning
    } as _last
    {
        ?[x] := *_last{_kind: 'inserted', x}
    }
    "#,
        )
        .unwrap();
    assert_eq!(3, res.rows.len());
    for row in res.rows.iter() {
        println!("{:?}", row);
    }
    assert!(db
        .run_default(
            r#"
    {
        ?[x, x] := x = 1
    } as _last
    "#
        )
        .is_err());

    let res = db
        .run_default(
            r#"
    {
        x[y] <- [[1], [2], [3]]
        ?[sum(y)] := x[y]
    } as _last
    {
        ?[sum_y] := *_last{sum_y}
    }
    "#,
        )
        .unwrap();
    assert_eq!(1, res.rows.len());
    for row in res.rows.iter() {
        println!("{:?}", row);
    }
}

#[test]
fn update_shall_not_destroy_values() {
    let mut db = DbInstance::default();
    db.run_default(r"?[x, y] <- [[1, 2]] :create z {x => y default 0}")
        .unwrap();
    let r = db.run_default(r"?[x, y] := *z {x, y}").unwrap();
    assert_eq!(r.rows, vec![vec![whole(1), whole(2)]]);
    db.run_default(r"?[x] <- [[1]] :update z {x}").unwrap();
    let r = db.run_default(r"?[x, y] := *z {x, y}").unwrap();
    assert_eq!(r.rows, vec![vec![whole(1), whole(2)]]);
}

#[test]
fn update_shall_work() {
    let mut db = DbInstance::default();
    db.run_default(r"?[x, y, z] <- [[1, 2, 3]] :create z {x => y, z}")
        .unwrap();
    let r = db.run_default(r"?[x, y, z] := *z {x, y, z}").unwrap();
    assert_eq!(r.rows, vec![vec![whole(1), whole(2), whole(3)]]);
    db.run_default(r"?[x, y] <- [[1, 4]] :update z {x, y}")
        .unwrap();
    let r = db.run_default(r"?[x, y, z] := *z {x, y, z}").unwrap();
    assert_eq!(r.rows, vec![vec![whole(1), whole(4), whole(3)]]);
}

#[test]
fn bad_parse() {
    let mut db = DbInstance::default();
    db.run_default(
        r"
        :create named_hero_history {
        name: String,
        value: Bool,
        when: Int
    }",
    )
    .unwrap();
    db.run_default(r"
        last_named_hero[first, first, max(hist)] := *named_hero_history[first, first, value, hist], hist <= 1;

        some_named_hero[first, first, value] := last_named_hero[first, first, last], *named_hero_history[first, first, value, last];

        named_hero[first, first, value] := cast[first], value = false, not some_named_hero[first, first, _];
        named_hero[first, first, value] := some_named_hero[first, first, value];
        ?[hero] :=
    ").expect_err("should fail");
}

#[test]
fn puts() {
    let mut db = DbInstance::default();
    db.run_default(
        r"
            :create cm_txt {
                tid: String =>
                aid: String,
                tag: String,
                follows_tid: String? default null,
                for_qs: [String] default [],
                dup_for: String? default null,
                text: String,
                seg_vecs: [<F32; 1536>],
                seg_pos: [(Int, Int)],
                format: String default 'text',
                info_amount: Int,
            }
    ",
    )
    .unwrap();
    db.run_default(
        r"
        ?[tid, aid, tag, text, info_amount, dup_for, seg_vecs, seg_pos] := dup_for = null,
                tid = 'x', aid = 'y', tag = 'z', text = 'w', info_amount = 12,
                follows_tid = null, for_qs = [], format = 'x',
                seg_vecs = [], seg_pos = [[0, 10]]
        :put cm_txt {tid, aid, tag, text, info_amount, seg_vecs, seg_pos, dup_for}
    ",
    )
    .unwrap();
}

#[test]
fn short_hand() {
    let mut db = DbInstance::default();
    db.run_default(r":create x {x => y, z}").unwrap();
    db.run_default(r"?[x, y, z] <- [[1, 2, 3]] :put x {}")
        .unwrap();
    let r = db.run_default(r"?[x, y, z] := *x {x, y, z}").unwrap();
    assert_eq!(r.rows, vec![vec![whole(1), whole(2), whole(3)]]);
}

#[test]
fn param_shorthand() {
    let mut db = DbInstance::default();
    db.run_script(
        r"
        ?[] <- [[$x, $y, $z]]
        :create x {}
    ",
        &Params::new()
            .with("x", DataValue::from(1))
            .with("y", DataValue::from(2))
            .with("z", DataValue::from(3)),
        ScriptMutability::Mutable,
    )
    .unwrap();
    let res = db.run_default(r"?[x, y, z] := *x {x, y, z}");
    assert_eq!(res.unwrap().rows, vec![vec![whole(1), whole(2), whole(3)]]);
}

#[test]
fn crashy_imperative() {
    let mut db = DbInstance::default();
    db.run_default(
        r"
        {:create _test {a}}

        %loop
            %if { len[count(x)] := *_test[x]; ?[x] := len[z], x = z >= 10 }
                %then %return _test
            %end
            { ?[a] := a = rand_uuid_v1(); :put _test {a} }
        %end
        ",
    )
    .unwrap();
}

#[test]
fn fts_drop() {
    let mut db = DbInstance::default();
    db.run_default(
        r#"
            :create entity {name}
        "#,
    )
    .unwrap();
    db.run_default(
        r#"
        ::fts create entity:fts_index { extractor: name,
            tokenizer: Simple, filters: [Lowercase]
        }
    "#,
    )
    .unwrap();
    db.run_default(
        r#"
        ::fts drop entity:fts_index
    "#,
    )
    .unwrap();
}

#[test]
fn imperative_return_braced_clause_no_panic() {
    let mut db = DbInstance::new("mem", "", "").unwrap();
    let res = db
        .run_default(
            r#"
        {:create _t_ret {a}}
        %return { ?[x] <- [[1]] }
        "#,
        )
        .unwrap()
        ;
    assert_eq!(res.rows, vec![vec![whole(1)]]);
}

#[test]
fn imperative_return_respects_relation_access_level() {
    let mut db = DbInstance::new("mem", "", "").unwrap();
    db.run_default("?[k, v] <- [[1, 'secret']] :create secret {k => v}")
        .unwrap();
    db.run_default("::access_level hidden secret").unwrap();

    let err = db
        .run_default("%return secret")
        .expect_err("imperative return must not expose a hidden relation");
    assert!(
        err.report().contains("Insufficient access level"), "{}", err.report()
    );
}
