//! Which index serves a condition on a stored relation.
use vstd::prelude::*;

use crate::bind::{
    PlanV, SlotV, combined, field_from, find_field, join_from, join_row_from, match_from, plan_from,
    plan_of, spread, terms_of,
};
use crate::error::Fault;
use crate::expr::{Ctx, Expr, ExprV, eval_of, place};
use crate::list::{Dup, List, opt_of};
use crate::query::{Atom, AtomV, Field, FieldV, Fields, FieldsV};
use crate::scan::{SourceV, scanned};
use crate::schema::{RelKind, kind, kind_of};
use crate::store::{Relation, RelationV, columns, columns_of, find_rel, names, names_of, rel_place};
use crate::table::Rows;
use crate::value::{DataValue, Value, same};

verus! {

/// How an index serves a condition: it looks up the rows that have a value in
/// its first column.
pub struct Route {
    pub index: String,
    pub place: usize,
    pub value: DataValue,
}

/// The mathematical counterpart of [`Route`].
#[verifier::ext_equal]
pub struct RouteV {
    pub index: Seq<char>,
    pub place: usize,
    pub value: Value,
}

impl View for Route {
    type V = RouteV;

    open spec fn view(&self) -> RouteV {
        RouteV { index: self.index@, place: self.place, value: self.value@ }
    }
}

/// The constant that a field has, where it has one.
pub open spec fn fixed_in(fs: Seq<FieldV>, name: Seq<char>) -> Option<Value> {
    let k = field_from(fs, name, 0);
    if k < fs.len() {
        match fs[k].term {
            ExprV::Const(v) => Some(v),
            _ => None,
        }
    } else {
        None
    }
}

fn get_fixed(fs: &List<Field>, name: &String) -> (r: Option<DataValue>)
    ensures
        opt_of(r) == fixed_in(fs@, name@),
{
    let k = find_field(fs, name);
    if k < fs.len() {
        match &fs.get(k).term {
            Expr::Const(v) => Some(v.dup()),
            _ => None,
        }
    } else {
        None
    }
}

/// Whether the fields from place `i` on have variables and constants alone.
pub open spec fn simple_from(fs: Seq<FieldV>, i: int) -> bool
    decreases fs.len() - i,
{
    if i < 0 || i >= fs.len() {
        true
    } else {
        !(fs[i].term is Call) && simple_from(fs, i + 1)
    }
}

fn are_simple(fs: &List<Field>) -> (r: bool)
    ensures
        r == simple_from(fs@, 0),
{
    let mut i: usize = 0;
    while i < fs.len()
        invariant
            i <= fs@.len(),
            simple_from(fs@, 0) == simple_from(fs@, i as int),
        decreases fs@.len() - i,
    {
        match &fs.get(i).term {
            Expr::Call(_, _) => {
                return false;
            },
            _ => {},
        }
        i = i + 1;
    }
    true
}

/// The first index from place `i` on whose first column has a constant among
/// the fields.
pub open spec fn route_from(rel: RelationV, fs: Seq<FieldV>, i: int) -> Option<RouteV>
    decreases rel.indices.len() - i,
{
    let all = names_of(columns_of(rel));
    if i < 0 || i >= rel.indices.len() {
        None
    } else if rel.indices[i].places.len() == 0 || rel.indices[i].places[0] >= all.len() {
        route_from(rel, fs, i + 1)
    } else {
        match fixed_in(fs, all[rel.indices[i].places[0] as int]) {
            None => route_from(rel, fs, i + 1),
            Some(value) => Some(
                RouteV { index: rel.indices[i].name, place: rel.indices[i].places[0], value },
            ),
        }
    }
}

fn find_route(rel: &Relation, fs: &List<Field>) -> (r: Option<Route>)
    ensures
        opt_of(r) == route_from(rel@, fs@, 0),
{
    let all = names(&columns(rel));
    let mut i: usize = 0;
    while i < rel.indices.len()
        invariant
            i <= rel@.indices.len(),
            all@ == names_of(columns_of(rel@)),
            route_from(rel@, fs@, 0) == route_from(rel@, fs@, i as int),
        decreases rel@.indices.len() - i,
    {
        let ix = rel.indices.get(i);
        if ix.places.len() > 0 && *ix.places.get(0) < all.len() {
            let place = *ix.places.get(0);
            match get_fixed(fs, all.get(place)) {
                None => {},
                Some(value) => {
                    return Some(Route { index: ix.name.clone(), place, value });
                },
            }
        }
        i = i + 1;
    }
    None
}

/// The index that serves a condition: one of a relation without times whose
/// first column has a constant, where the first key of the relation has none.
pub open spec fn routed(rels: Seq<RelationV>, a: AtomV) -> Option<RouteV> {
    match a {
        AtomV::Stored(name, FieldsV::Names(fs), sel, false) => {
            let p = rel_place(rels, name);
            if p < rels.len() && sel.vt is None && sel.tt is None && kind_of(rels[p].keys)
                == RelKind::Plain && simple_from(fs, 0) && (rels[p].keys.len() == 0 || fixed_in(
                fs,
                rels[p].keys[0].name,
            ) is None) {
                route_from(rels[p], fs, 0)
            } else {
                None
            }
        },
        _ => None,
    }
}

/// The index that serves a condition.
pub fn route(rels: &List<Relation>, a: &Atom) -> (r: Option<Route>)
    ensures
        opt_of(r) == routed(rels@, a@),
{
    match a {
        Atom::Stored(name, Fields::Names(fs), sel, false) => {
            let p = find_rel(rels, name);
            if p < rels.len() && sel.vt.is_none() && sel.tt.is_none() && kind(&rels.get(p).keys)
                == RelKind::Plain && are_simple(fs) && (rels.get(p).keys.len() == 0 || get_fixed(
                fs,
                &rels.get(p).keys.get(0).name,
            ).is_none()) {
                find_route(rels.get(p), fs)
            } else {
                None
            }
        },
        _ => None,
    }
}

/// The rows from place `i` on that have a value at a place, after `acc`.
pub open spec fn kept_from(
    rows: Seq<Seq<Value>>,
    place: int,
    v: Value,
    i: int,
    acc: Seq<Seq<Value>>,
) -> Seq<Seq<Value>>
    decreases rows.len() - i,
{
    if i < 0 || i >= rows.len() {
        acc
    } else if 0 <= place < rows[i].len() && rows[i][place] == v {
        kept_from(rows, place, v, i + 1, acc.push(rows[i]))
    } else {
        kept_from(rows, place, v, i + 1, acc)
    }
}

/// The rows that a route leaves of those of a relation.
pub open spec fn along(r: Option<RouteV>, rows: Seq<Seq<Value>>) -> Seq<Seq<Value>> {
    match r {
        None => rows,
        Some(w) => kept_from(rows, w.place as int, w.value, 0, Seq::empty()),
    }
}

/// The rows that a route leaves of those of a relation.
pub fn take_along(r: &Option<Route>, rows: Rows) -> (out: Rows)
    ensures
        out@ == along(opt_of(*r), rows@),
{
    match r {
        None => rows,
        Some(w) => {
            let mut acc: Rows = List::new();
            let mut i: usize = 0;
            while i < rows.len()
                invariant
                    i <= rows@.len(),
                    kept_from(rows@, w.place as int, w.value@, 0, Seq::empty()) == kept_from(
                        rows@,
                        w.place as int,
                        w.value@,
                        i as int,
                        acc@,
                    ),
                decreases rows@.len() - i,
            {
                let row = rows.get(i);
                if w.place < row.len() && same(row.get(w.place), &w.value) {
                    acc.push(row.dup());
                }
                i = i + 1;
            }
            acc
        },
    }
}

proof fn lemma_plan_slots(terms: Seq<ExprV>, i: int, p: PlanV)
    requires
        0 <= i <= terms.len(),
        p.slots.len() == i,
        forall|k: int|
            0 <= k < i ==> if terms[k] is Var {
                !((#[trigger] p.slots[k]) is Test)
            } else {
                p.slots[k] == SlotV::Test(terms[k])
            },
    ensures
        plan_from(terms, i, p).slots.len() == terms.len(),
        forall|k: int|
            0 <= k < terms.len() ==> if terms[k] is Var {
                !((#[trigger] plan_from(terms, i, p).slots[k]) is Test)
            } else {
                plan_from(terms, i, p).slots[k] == SlotV::Test(terms[k])
            },
    decreases terms.len() - i,
{
    if i < terms.len() {
        match terms[i] {
            ExprV::Var(n) => {
                if n == "_"@ {
                    lemma_plan_slots(terms, i + 1, PlanV { slots: p.slots.push(SlotV::Skip), ..p });
                } else if place(p.cols, n) < p.cols.len() {
                    lemma_plan_slots(
                        terms,
                        i + 1,
                        PlanV {
                            slots: p.slots.push(
                                SlotV::Old(place(p.cols, n) as usize),
                            ),
                            ..p
                        },
                    );
                } else {
                    lemma_plan_slots(
                        terms,
                        i + 1,
                        PlanV { slots: p.slots.push(SlotV::Fresh), cols: p.cols.push(n) },
                    );
                }
            },
            e => {
                lemma_plan_slots(terms, i + 1, PlanV { slots: p.slots.push(SlotV::Test(e)), ..p });
            },
        }
    }
}

/// A row without the constant at its place does not match.
proof fn lemma_no_match(
    p: PlanV,
    place: int,
    v: Value,
    src: Seq<Value>,
    i: int,
    row: Seq<Value>,
    ctx: Ctx,
)
    requires
        0 <= i <= place < p.slots.len(),
        forall|k: int|
            0 <= k < p.slots.len() && (#[trigger] p.slots[k]) is Test ==> p.slots[k]->Test_0 is Const,
        p.slots[place] == SlotV::Test(ExprV::Const(v)),
        place >= src.len() || src[place] != v,
    ensures
        match_from(p, src, i, row, ctx) == Ok::<Option<Seq<Value>>, Fault>(None),
    decreases place - i,
{
    if i < src.len() {
        if i < place {
            match p.slots[i] {
                SlotV::Skip => lemma_no_match(p, place, v, src, i + 1, row, ctx),
                SlotV::Fresh => lemma_no_match(p, place, v, src, i + 1, row.push(src[i]), ctx),
                SlotV::Old(k) => {
                    if k < row.len() && row[k as int] == src[i] {
                        lemma_no_match(p, place, v, src, i + 1, row, ctx);
                    }
                },
                SlotV::Test(e) => {
                    assert(p.slots[i] is Test);
                    if e->Const_0 == src[i] {
                        lemma_no_match(p, place, v, src, i + 1, row, ctx);
                    }
                },
            }
        } else {
            assert(eval_of(ExprV::Const(v), p.cols, row, ctx) == Ok::<Value, Fault>(v));
        }
    }
}

proof fn lemma_kept_prefix(
    rows: Seq<Seq<Value>>,
    place: int,
    v: Value,
    i: int,
    acc: Seq<Seq<Value>>,
)
    requires
        0 <= i <= rows.len(),
    ensures
        kept_from(rows, place, v, i, acc).len() >= acc.len(),
        forall|k: int| 0 <= k < acc.len() ==> kept_from(rows, place, v, i, acc)[k] == acc[k],
    decreases rows.len() - i,
{
    if i < rows.len() {
        if 0 <= place < rows[i].len() && rows[i][place] == v {
            let more = acc.push(rows[i]);
            lemma_kept_prefix(rows, place, v, i + 1, more);
            assert forall|k: int| 0 <= k < acc.len() implies kept_from(rows, place, v, i, acc)[k]
                == acc[k] by {
                assert(more[k] == acc[k]);
            }
        } else {
            lemma_kept_prefix(rows, place, v, i + 1, acc);
        }
    }
}

proof fn lemma_join_row_along(
    p: PlanV,
    place: int,
    v: Value,
    row: Seq<Value>,
    src: Seq<Seq<Value>>,
    j: int,
    done: Seq<Seq<Value>>,
    ctx: Ctx,
    acc: Seq<Seq<Value>>,
)
    requires
        0 <= place < p.slots.len(),
        forall|k: int|
            0 <= k < p.slots.len() && (#[trigger] p.slots[k]) is Test ==> p.slots[k]->Test_0 is Const,
        p.slots[place] == SlotV::Test(ExprV::Const(v)),
        0 <= j <= src.len(),
    ensures
        join_row_from(p, row, kept_from(src, place, v, j, done), done.len() as int, ctx, acc)
            == join_row_from(p, row, src, j, ctx, acc),
    decreases src.len() - j,
{
    if j < src.len() {
        if place < src[j].len() && src[j][place] == v {
            let more = done.push(src[j]);
            lemma_kept_prefix(src, place, v, j + 1, more);
            let kept = kept_from(src, place, v, j + 1, more);
            assert(kept[done.len() as int] == more[done.len() as int]);
            match match_from(p, src[j], 0, row, ctx) {
                Err(_) => {},
                Ok(None) => lemma_join_row_along(p, place, v, row, src, j + 1, more, ctx, acc),
                Ok(Some(r)) => lemma_join_row_along(
                    p,
                    place,
                    v,
                    row,
                    src,
                    j + 1,
                    more,
                    ctx,
                    acc.push(r),
                ),
            }
        } else {
            lemma_no_match(p, place, v, src[j], 0, row, ctx);
            lemma_join_row_along(p, place, v, row, src, j + 1, done, ctx, acc);
        }
    }
}

proof fn lemma_join_along(
    p: PlanV,
    place: int,
    v: Value,
    rows: Seq<Seq<Value>>,
    src: Seq<Seq<Value>>,
    i: int,
    ctx: Ctx,
    acc: Seq<Seq<Value>>,
)
    requires
        0 <= place < p.slots.len(),
        forall|k: int|
            0 <= k < p.slots.len() && (#[trigger] p.slots[k]) is Test ==> p.slots[k]->Test_0 is Const,
        p.slots[place] == SlotV::Test(ExprV::Const(v)),
        0 <= i <= rows.len(),
    ensures
        join_from(p, rows, kept_from(src, place, v, 0, Seq::empty()), i, ctx, acc) == join_from(
            p,
            rows,
            src,
            i,
            ctx,
            acc,
        ),
    decreases rows.len() - i,
{
    if i < rows.len() {
        lemma_join_row_along(p, place, v, rows[i], src, 0, Seq::empty(), ctx, acc);
        match join_row_from(p, rows[i], src, 0, ctx, acc) {
            Err(_) => {},
            Ok(next) => lemma_join_along(p, place, v, rows, src, i + 1, ctx, next),
        }
    }
}

proof fn lemma_simple(fs: Seq<FieldV>, i: int, k: int)
    requires
        0 <= i <= k < fs.len(),
        simple_from(fs, i),
    ensures
        !(fs[k].term is Call),
    decreases k - i,
{
    if i < k {
        lemma_simple(fs, i + 1, k);
    }
}

proof fn lemma_field(fs: Seq<FieldV>, name: Seq<char>, i: int)
    requires
        0 <= i <= fs.len(),
    ensures
        i <= field_from(fs, name, i) <= fs.len(),
    decreases fs.len() - i,
{
    if i < fs.len() {
        lemma_field(fs, name, i + 1);
    }
}

proof fn lemma_route(rel: RelationV, fs: Seq<FieldV>, i: int)
    requires
        0 <= i,
    ensures
        route_from(rel, fs, i) matches Some(r) ==> r.place < columns_of(rel).len() && fixed_in(
            fs,
            names_of(columns_of(rel))[r.place as int],
        ) == Some(r.value),
    decreases rel.indices.len() - i,
{
    if i < rel.indices.len() {
        lemma_route(rel, fs, i + 1);
    }
}

/// Looking rows up through an index gives what reading the whole relation
/// gives: the index is a way to the rows and nothing more.
pub proof fn law_index_serves(
    rels: Seq<RelationV>,
    name: Seq<char>,
    fs: Seq<FieldV>,
    as_of: Option<i64>,
    a: AtomV,
    src: SourceV,
    terms: Seq<ExprV>,
    b: SourceV,
    ctx: Ctx,
)
    requires
        a matches AtomV::Stored(n, FieldsV::Names(f), _, _) && n == name && f == fs,
        scanned(rels, name, None, None, as_of) == Ok::<SourceV, Fault>(src),
        terms_of(FieldsV::Names(fs), src.cols) == Ok::<Seq<ExprV>, Fault>(terms),
    ensures
        combined(b, terms, along(routed(rels, a), src.rows), false, ctx) == combined(
            b,
            terms,
            src.rows,
            false,
            ctx,
        ),
{
    if let Some(r) = routed(rels, a) {
        let rel = rels[rel_place(rels, name)];
        let p = plan_of(terms, b.cols);
        let place = r.place as int;
        lemma_route(rel, fs, 0);
        assert(terms == spread(fs, src.cols));
        assert(src.cols == names_of(columns_of(rel)));
        lemma_field(fs, src.cols[place], 0);
        assert(terms[place] == ExprV::Const(r.value));
        lemma_plan_slots(terms, 0, PlanV { cols: b.cols, slots: Seq::empty() });
        assert forall|k: int|
            0 <= k < p.slots.len() && (#[trigger] p.slots[k]) is Test implies p.slots[k]->Test_0
            is Const by {
            lemma_field(fs, src.cols[k], 0);
            if field_from(fs, src.cols[k], 0) < fs.len() {
                lemma_simple(fs, 0, field_from(fs, src.cols[k], 0));
            }
            assert(!(terms[k] is Call));
        }
        lemma_join_along(p, place, r.value, b.rows, src.rows, 0, ctx, Seq::empty());
    }
}

} // verus!
