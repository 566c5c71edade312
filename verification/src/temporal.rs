//! Reading relations at points in time.
//!
//! A row of a relation with axes carries its stamps in its last key columns:
//! the instant from which its fact holds, with a flag that tells an assertion
//! from a retraction, and the transaction that recorded it.
use vstd::prelude::*;

use crate::list::{Dup, List};
use crate::schema::RelKind;
use crate::table::{Rows, prefix};
use crate::value::{DataValue, Tuple, Value, same_row};

verus! {

/// The value in a column, and null where the row is too short.
pub open spec fn cell(row: Seq<Value>, k: int) -> Value {
    if 0 <= k < row.len() {
        row[k]
    } else {
        Value::Null
    }
}

/// The instant of a stamp.
pub open spec fn instant(v: Value) -> i64 {
    match v {
        Value::Validity(t, _) => t,
        _ => 0,
    }
}

/// Whether a stamp asserts.
pub open spec fn asserts(v: Value) -> bool {
    match v {
        Value::Validity(_, a) => a,
        _ => false,
    }
}

fn instant_in(row: &Tuple, k: usize) -> (r: i64)
    ensures
        r == instant(cell(row@, k as int)),
{
    if k < row.len() {
        match row.get(k) {
            DataValue::Validity(t, _) => *t,
            _ => 0,
        }
    } else {
        0
    }
}

fn asserts_in(row: &Tuple, k: usize) -> (r: bool)
    ensures
        r == asserts(cell(row@, k as int)),
{
    if k < row.len() {
        match row.get(k) {
            DataValue::Validity(_, a) => *a,
            _ => false,
        }
    } else {
        false
    }
}

/// How many of `nk` key columns identify a fact.
pub open spec fn id_width(kind: RelKind, nk: int) -> int {
    match kind {
        RelKind::Plain => nk,
        RelKind::Valid => nk - 1,
        RelKind::Tx => nk - 1,
        RelKind::Bi => nk - 2,
    }
}

/// How many of `nk` key columns identify a fact.
pub fn width(kind: RelKind, nk: usize) -> (r: usize)
    requires
        id_width(kind, nk as int) >= 0,
    ensures
        r == id_width(kind, nk as int),
{
    match kind {
        RelKind::Plain => nk,
        RelKind::Valid => nk - 1,
        RelKind::Tx => nk - 1,
        RelKind::Bi => nk - 2,
    }
}

/// The columns that identify the fact of a row.
pub open spec fn id_of(row: Seq<Value>, kind: RelKind, nk: int) -> Seq<Value> {
    let w = id_width(kind, nk);
    if 0 <= w <= row.len() {
        row.take(w)
    } else {
        row
    }
}

/// The columns that identify the fact of a row.
pub fn id(row: &Tuple, kind: RelKind, nk: usize) -> (r: Tuple)
    requires
        id_width(kind, nk as int) >= 0,
    ensures
        r@ == id_of(row@, kind, nk as int),
{
    let w = width(kind, nk);
    if w <= row.len() {
        prefix(row, w)
    } else {
        row.dup()
    }
}

/// The instant from which the fact of a row holds.
pub open spec fn vt_of(row: Seq<Value>, kind: RelKind, nk: int) -> i64 {
    match kind {
        RelKind::Valid => instant(cell(row, nk - 1)),
        RelKind::Bi => instant(cell(row, nk - 2)),
        _ => 0,
    }
}

/// The transaction that recorded a row.
pub open spec fn tt_of(row: Seq<Value>, kind: RelKind, nk: int) -> i64 {
    match kind {
        RelKind::Tx => instant(cell(row, nk - 1)),
        RelKind::Bi => instant(cell(row, nk - 1)),
        _ => 0,
    }
}

/// Whether a row asserts its fact.
pub open spec fn flag_of(row: Seq<Value>, kind: RelKind, nk: int) -> bool {
    match kind {
        RelKind::Plain => true,
        RelKind::Bi => asserts(cell(row, nk - 2)),
        _ => asserts(cell(row, nk - 1)),
    }
}

pub fn vt_in(row: &Tuple, kind: RelKind, nk: usize) -> (r: i64)
    requires
        id_width(kind, nk as int) >= 0,
    ensures
        r == vt_of(row@, kind, nk as int),
{
    match kind {
        RelKind::Valid => instant_in(row, nk - 1),
        RelKind::Bi => instant_in(row, nk - 2),
        _ => 0,
    }
}

pub fn tt_in(row: &Tuple, kind: RelKind, nk: usize) -> (r: i64)
    requires
        id_width(kind, nk as int) >= 0,
    ensures
        r == tt_of(row@, kind, nk as int),
{
    match kind {
        RelKind::Tx => instant_in(row, nk - 1),
        RelKind::Bi => instant_in(row, nk - 1),
        _ => 0,
    }
}

pub fn flag_in(row: &Tuple, kind: RelKind, nk: usize) -> (r: bool)
    requires
        id_width(kind, nk as int) >= 0,
    ensures
        r == flag_of(row@, kind, nk as int),
{
    match kind {
        RelKind::Plain => true,
        RelKind::Bi => asserts_in(row, nk - 2),
        _ => asserts_in(row, nk - 1),
    }
}

/// Whether row `j` takes the place of row `i` in what was believed at
/// transaction `tt`: it speaks of the same fact from the same instant, was
/// recorded by then, and was recorded later (or stands first).
pub open spec fn supersedes(
    rows: Seq<Seq<Value>>,
    j: int,
    i: int,
    kind: RelKind,
    nk: int,
    tt: i64,
) -> bool {
    &&& id_of(rows[j], kind, nk) == id_of(rows[i], kind, nk)
    &&& vt_of(rows[j], kind, nk) == vt_of(rows[i], kind, nk)
    &&& tt_of(rows[j], kind, nk) <= tt
    &&& tt_of(rows[j], kind, nk) > tt_of(rows[i], kind, nk) || (tt_of(rows[j], kind, nk) == tt_of(
        rows[i],
        kind,
        nk,
    ) && j < i)
}

/// Whether row `i` is what was believed at transaction `tt` of its fact from
/// its instant on.
pub open spec fn believed(rows: Seq<Seq<Value>>, i: int, kind: RelKind, nk: int, tt: i64) -> bool {
    &&& tt_of(rows[i], kind, nk) <= tt
    &&& forall|j: int| 0 <= j < rows.len() ==> !supersedes(rows, j, i, kind, nk, tt)
}

/// Whether row `j` decides about a fact at instant `vt` rather than row `i`.
pub open spec fn overrides(
    rows: Seq<Seq<Value>>,
    j: int,
    i: int,
    kind: RelKind,
    nk: int,
    vt: i64,
    tt: i64,
) -> bool {
    &&& id_of(rows[j], kind, nk) == id_of(rows[i], kind, nk)
    &&& vt_of(rows[i], kind, nk) < vt_of(rows[j], kind, nk) <= vt
    &&& believed(rows, j, kind, nk, tt)
}

/// Whether row `i` decides about its fact at instant `vt`, going by what was
/// believed at transaction `tt`: of the rows that were believed it is the one
/// from the latest instant by then.
pub open spec fn decides(
    rows: Seq<Seq<Value>>,
    i: int,
    kind: RelKind,
    nk: int,
    vt: i64,
    tt: i64,
) -> bool {
    &&& believed(rows, i, kind, nk, tt)
    &&& vt_of(rows[i], kind, nk) <= vt
    &&& forall|j: int| 0 <= j < rows.len() ==> !overrides(rows, j, i, kind, nk, vt, tt)
}

/// Whether a read at these points shows row `i`.
pub open spec fn shown(
    rows: Seq<Seq<Value>>,
    i: int,
    kind: RelKind,
    nk: int,
    vt: Option<i64>,
    tt: i64,
) -> bool {
    match (kind, vt) {
        (RelKind::Plain, _) => true,
        (RelKind::Valid, None) => true,
        (RelKind::Valid, Some(v)) => decides(rows, i, kind, nk, v, tt) && flag_of(
            rows[i],
            kind,
            nk,
        ),
        (RelKind::Tx, _) => believed(rows, i, kind, nk, tt) && flag_of(rows[i], kind, nk),
        (RelKind::Bi, None) => believed(rows, i, kind, nk, tt),
        (RelKind::Bi, Some(v)) => decides(rows, i, kind, nk, v, tt) && flag_of(rows[i], kind, nk),
    }
}

fn check_supersedes(rows: &Rows, j: usize, i: usize, kind: RelKind, nk: usize, tt: i64) -> (r: bool)
    requires
        i < rows@.len(),
        j < rows@.len(),
        id_width(kind, nk as int) >= 0,
    ensures
        r == supersedes(rows@, j as int, i as int, kind, nk as int, tt),
{
    let a = rows.get(j);
    let b = rows.get(i);
    let ta = tt_in(a, kind, nk);
    let tb = tt_in(b, kind, nk);
    if ta > tt || vt_in(a, kind, nk) != vt_in(b, kind, nk) {
        return false;
    }
    if !(ta > tb || (ta == tb && j < i)) {
        return false;
    }
    same_row(&id(a, kind, nk), &id(b, kind, nk))
}

/// Whether row `i` is what was believed at transaction `tt`.
pub fn is_believed(rows: &Rows, i: usize, kind: RelKind, nk: usize, tt: i64) -> (r: bool)
    requires
        i < rows@.len(),
        id_width(kind, nk as int) >= 0,
    ensures
        r == believed(rows@, i as int, kind, nk as int, tt),
{
    if tt_in(rows.get(i), kind, nk) > tt {
        return false;
    }
    let mut j: usize = 0;
    while j < rows.len()
        invariant
            i < rows@.len(),
            j <= rows@.len(),
            id_width(kind, nk as int) >= 0,
            forall|k: int| 0 <= k < j ==> !supersedes(rows@, k, i as int, kind, nk as int, tt),
        decreases rows@.len() - j,
    {
        if check_supersedes(rows, j, i, kind, nk, tt) {
            return false;
        }
        j = j + 1;
    }
    true
}

fn check_overrides(
    rows: &Rows,
    j: usize,
    i: usize,
    kind: RelKind,
    nk: usize,
    vt: i64,
    tt: i64,
) -> (r: bool)
    requires
        i < rows@.len(),
        j < rows@.len(),
        id_width(kind, nk as int) >= 0,
    ensures
        r == overrides(rows@, j as int, i as int, kind, nk as int, vt, tt),
{
    let a = rows.get(j);
    let b = rows.get(i);
    let va = vt_in(a, kind, nk);
    if va > vt || va <= vt_in(b, kind, nk) {
        return false;
    }
    same_row(&id(a, kind, nk), &id(b, kind, nk)) && is_believed(rows, j, kind, nk, tt)
}

/// Whether row `i` decides about its fact at instant `vt`.
pub fn does_decide(rows: &Rows, i: usize, kind: RelKind, nk: usize, vt: i64, tt: i64) -> (r: bool)
    requires
        i < rows@.len(),
        id_width(kind, nk as int) >= 0,
    ensures
        r == decides(rows@, i as int, kind, nk as int, vt, tt),
{
    if vt_in(rows.get(i), kind, nk) > vt || !is_believed(rows, i, kind, nk, tt) {
        return false;
    }
    let mut j: usize = 0;
    while j < rows.len()
        invariant
            i < rows@.len(),
            j <= rows@.len(),
            id_width(kind, nk as int) >= 0,
            forall|k: int| 0 <= k < j ==> !overrides(rows@, k, i as int, kind, nk as int, vt, tt),
        decreases rows@.len() - j,
    {
        if check_overrides(rows, j, i, kind, nk, vt, tt) {
            return false;
        }
        j = j + 1;
    }
    true
}

fn is_shown(
    rows: &Rows,
    i: usize,
    kind: RelKind,
    nk: usize,
    vt: Option<i64>,
    tt: i64,
) -> (r: bool)
    requires
        i < rows@.len(),
        id_width(kind, nk as int) >= 0,
    ensures
        r == shown(rows@, i as int, kind, nk as int, vt, tt),
{
    match (kind, vt) {
        (RelKind::Plain, _) => true,
        (RelKind::Valid, None) => true,
        (RelKind::Valid, Some(v)) => flag_in(rows.get(i), kind, nk) && does_decide(
            rows,
            i,
            kind,
            nk,
            v,
            tt,
        ),
        (RelKind::Tx, _) => flag_in(rows.get(i), kind, nk) && is_believed(rows, i, kind, nk, tt),
        (RelKind::Bi, None) => is_believed(rows, i, kind, nk, tt),
        (RelKind::Bi, Some(v)) => flag_in(rows.get(i), kind, nk) && does_decide(
            rows,
            i,
            kind,
            nk,
            v,
            tt,
        ),
    }
}

/// A row as a query sees it: the transaction as a number.
pub open spec fn displayed(row: Seq<Value>, kind: RelKind, nk: int) -> Seq<Value> {
    match kind {
        RelKind::Plain => row,
        RelKind::Valid => row,
        _ => if 0 < nk <= row.len() {
            row.update(nk - 1, Value::Int(instant(row[nk - 1])))
        } else {
            row
        },
    }
}

/// A row as a query sees it.
pub fn display(row: &Tuple, kind: RelKind, nk: usize) -> (r: Tuple)
    requires
        id_width(kind, nk as int) >= 0,
    ensures
        r@ == displayed(row@, kind, nk as int),
{
    let mut out = row.dup();
    match kind {
        RelKind::Plain => out,
        RelKind::Valid => out,
        _ => {
            if nk <= row.len() {
                let t = instant_in(row, nk - 1);
                out.set(nk - 1, DataValue::Int(t));
            }
            out
        },
    }
}

/// The rows from place `i` on that a read shows, after those in `acc`.
pub open spec fn visible_from(
    rows: Seq<Seq<Value>>,
    i: int,
    kind: RelKind,
    nk: int,
    vt: Option<i64>,
    tt: i64,
    acc: Seq<Seq<Value>>,
) -> Seq<Seq<Value>>
    decreases rows.len() - i,
{
    if i < 0 || i >= rows.len() {
        acc
    } else if shown(rows, i, kind, nk, vt, tt) {
        visible_from(rows, i + 1, kind, nk, vt, tt, acc.push(displayed(rows[i], kind, nk)))
    } else {
        visible_from(rows, i + 1, kind, nk, vt, tt, acc)
    }
}

/// The rows that a read at these points shows.
pub fn visible(rows: &Rows, kind: RelKind, nk: usize, vt: Option<i64>, tt: i64) -> (r: Rows)
    requires
        id_width(kind, nk as int) >= 0,
    ensures
        r@ == visible_from(rows@, 0, kind, nk as int, vt, tt, Seq::empty()),
{
    let mut acc: Rows = List::new();
    let mut i: usize = 0;
    while i < rows.len()
        invariant
            i <= rows@.len(),
            id_width(kind, nk as int) >= 0,
            visible_from(rows@, 0, kind, nk as int, vt, tt, Seq::empty()) == visible_from(
                rows@,
                i as int,
                kind,
                nk as int,
                vt,
                tt,
                acc@,
            ),
        decreases rows@.len() - i,
    {
        if is_shown(rows, i, kind, nk, vt, tt) {
            acc.push(display(rows.get(i), kind, nk));
        }
        i = i + 1;
    }
    acc
}

/// The transaction point that stands for the present.
pub const LATEST: i64 = 0x7fff_ffff_ffff_ffff;

/// Where row `i` of `rows` stands once a row was put in at place `p`.
pub open spec fn moved_to(i: int, p: int) -> int {
    if i < p {
        i
    } else {
        i + 1
    }
}

proof fn lemma_late_row(
    rows: Seq<Seq<Value>>,
    p: int,
    row: Seq<Value>,
    i: int,
    kind: RelKind,
    nk: int,
    tt: i64,
)
    requires
        0 <= p <= rows.len(),
        0 <= i < rows.len(),
        tt_of(row, kind, nk) > tt,
    ensures
        believed(rows.insert(p, row), moved_to(i, p), kind, nk, tt) == believed(
            rows,
            i,
            kind,
            nk,
            tt,
        ),
{
    let more = rows.insert(p, row);
    let m = moved_to(i, p);
    assert(more[m] == rows[i]);
    if believed(rows, i, kind, nk, tt) {
        assert forall|j: int| 0 <= j < more.len() implies !supersedes(
            more,
            j,
            m,
            kind,
            nk,
            tt,
        ) by {
            if j != p {
                let k = if j < p { j } else { j - 1 };
                assert(more[j] == rows[k]);
                assert(!supersedes(rows, k, i, kind, nk, tt));
            }
        }
    }
    if believed(more, m, kind, nk, tt) {
        assert forall|k: int| 0 <= k < rows.len() implies !supersedes(
            rows,
            k,
            i,
            kind,
            nk,
            tt,
        ) by {
            assert(more[moved_to(k, p)] == rows[k]);
            assert(!supersedes(more, moved_to(k, p), m, kind, nk, tt));
        }
    }
}

/// What was recorded after a transaction does not change what a read at that
/// transaction shows: every row stays shown or not, and the new one is not.
pub proof fn law_past_unchanged(
    rows: Seq<Seq<Value>>,
    p: int,
    row: Seq<Value>,
    i: int,
    kind: RelKind,
    nk: int,
    vt: Option<i64>,
    tt: i64,
)
    requires
        kind == RelKind::Tx || kind == RelKind::Bi,
        0 <= p <= rows.len(),
        0 <= i < rows.len(),
        tt_of(row, kind, nk) > tt,
    ensures
        shown(rows.insert(p, row), moved_to(i, p), kind, nk, vt, tt) == shown(
            rows,
            i,
            kind,
            nk,
            vt,
            tt,
        ),
        !shown(rows.insert(p, row), p, kind, nk, vt, tt),
{
    let more = rows.insert(p, row);
    let m = moved_to(i, p);
    assert(more[m] == rows[i]);
    assert(more[p] == row);
    lemma_late_row(rows, p, row, i, kind, nk, tt);
    if let Some(v) = vt {
        if decides(rows, i, kind, nk, v, tt) {
            assert forall|j: int| 0 <= j < more.len() implies !overrides(
                more,
                j,
                m,
                kind,
                nk,
                v,
                tt,
            ) by {
                if j != p {
                    let k = if j < p { j } else { j - 1 };
                    assert(more[j] == rows[k]);
                    lemma_late_row(rows, p, row, k, kind, nk, tt);
                    assert(!overrides(rows, k, i, kind, nk, v, tt));
                }
            }
        }
        if decides(more, m, kind, nk, v, tt) {
            assert forall|k: int| 0 <= k < rows.len() implies !overrides(
                rows,
                k,
                i,
                kind,
                nk,
                v,
                tt,
            ) by {
                assert(more[moved_to(k, p)] == rows[k]);
                lemma_late_row(rows, p, row, k, kind, nk, tt);
                assert(!overrides(more, moved_to(k, p), m, kind, nk, v, tt));
            }
        }
    }
}

/// Whether two rows speak of one fact from one instant.
pub open spec fn rivals(a: Seq<Value>, b: Seq<Value>, kind: RelKind, nk: int) -> bool {
    id_of(a, kind, nk) == id_of(b, kind, nk) && vt_of(a, kind, nk) == vt_of(b, kind, nk)
}

/// A relation with both axes in which nothing was corrected is read in the
/// present like its twin without transaction times, bare and at every instant.
pub proof fn law_both_axes_extend_one(
    bi: Seq<Seq<Value>>,
    valid: Seq<Seq<Value>>,
    i: int,
    nk: int,
    vt: Option<i64>,
)
    requires
        nk >= 2,
        bi.len() == valid.len(),
        0 <= i < bi.len(),
        forall|j: int|
            0 <= j < bi.len() ==> (#[trigger] bi[j]).len() >= nk && valid[j] == bi[j].remove(
                nk - 1,
            ),
        forall|j: int, k: int|
            0 <= j < k < bi.len() ==> !rivals(#[trigger] bi[j], #[trigger] bi[k], RelKind::Bi, nk),
    ensures
        shown(bi, i, RelKind::Bi, nk, vt, LATEST) == shown(
            valid,
            i,
            RelKind::Valid,
            nk - 1,
            vt,
            LATEST,
        ),
{
    let b = RelKind::Bi;
    let v = RelKind::Valid;
    let m: int = nk - 1;
    assert forall|j: int| 0 <= j < bi.len() implies id_of(#[trigger] valid[j], v, m) == id_of(
        bi[j],
        b,
        nk,
    ) && vt_of(valid[j], v, m) == vt_of(bi[j], b, nk) && flag_of(valid[j], v, m)
        == flag_of(bi[j], b, nk) by {
        assert(bi[j].len() >= nk);
        assert(id_of(valid[j], v, m) =~= id_of(bi[j], b, nk));
    }
    assert forall|j: int| 0 <= j < bi.len() implies #[trigger] believed(bi, j, b, nk, LATEST) by {
        assert forall|k: int| 0 <= k < bi.len() implies !supersedes(bi, k, j, b, nk, LATEST) by {
            if k < j {
                assert(!rivals(bi[k], bi[j], b, nk));
            } else if j < k {
                assert(!rivals(bi[j], bi[k], b, nk));
            }
        }
    }
    assert forall|j: int| 0 <= j < bi.len() implies #[trigger] believed(
        valid,
        j,
        v,
        m,
        LATEST,
    ) by {
        assert forall|k: int| 0 <= k < bi.len() implies !supersedes(
            valid,
            k,
            j,
            v,
            m,
            LATEST,
        ) by {
            assert(valid[k] == valid[k] && valid[j] == valid[j]);
            if k < j {
                assert(!rivals(bi[k], bi[j], b, nk));
            }
        }
    }
    if let Some(t) = vt {
        assert(valid[i] == valid[i]);
        if decides(bi, i, b, nk, t, LATEST) {
            assert forall|j: int| 0 <= j < valid.len() implies !overrides(
                valid,
                j,
                i,
                v,
                m,
                t,
                LATEST,
            ) by {
                assert(valid[j] == valid[j]);
                assert(!overrides(bi, j, i, b, nk, t, LATEST));
                assert(believed(bi, j, b, nk, LATEST));
            }
        }
        if decides(valid, i, v, m, t, LATEST) {
            assert forall|j: int| 0 <= j < bi.len() implies !overrides(
                bi,
                j,
                i,
                b,
                nk,
                t,
                LATEST,
            ) by {
                assert(valid[j] == valid[j]);
                assert(!overrides(valid, j, i, v, m, t, LATEST));
                assert(believed(valid, j, v, m, LATEST));
            }
        }
    }
}

} // verus!
