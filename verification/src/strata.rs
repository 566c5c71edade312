//! The order in which rules are evaluated.
use vstd::prelude::*;

use crate::aggr::{Custom, CustomV};
use crate::error::{DbError, ErrKind, Fault, err, err_on, fault, fault_on, outcome};
use crate::fold::{AggOp, Shape, resolve_head, resolved_from, shape, shape_of};
use crate::list::{Dup, List};
use crate::query::{Atom, AtomV, Body, BodyV, Rule, RuleV};

verus! {

/// All rules of one name.
pub struct Unit {
    pub name: String,
    /// What happens to the columns of the head.
    pub ops: List<AggOp>,
    pub shape: Shape,
}

/// The mathematical counterpart of [`Unit`].
#[verifier::ext_equal]
pub struct UnitV {
    pub name: Seq<char>,
    pub ops: Seq<AggOp>,
    pub shape: Shape,
}

impl View for Unit {
    type V = UnitV;

    open spec fn view(&self) -> UnitV {
        UnitV {
            name: self.name@,
            ops: self.ops@,
            shape: self.shape,
        }
    }
}

impl Dup for Unit {
    fn dup(&self) -> (r: Self) {
        Unit {
            name: self.name.clone(),
            ops: self.ops.dup(),
            shape: self.shape,
        }
    }
}

/// The place of a unit from place `i` on, and the length where there is none of
/// the name.
pub open spec fn unit_from(units: Seq<UnitV>, name: Seq<char>, i: int) -> int
    decreases units.len() - i,
{
    if i < 0 || i >= units.len() {
        units.len() as int
    } else if units[i].name == name {
        i
    } else {
        unit_from(units, name, i + 1)
    }
}

/// The place of a unit.
pub fn find_unit(units: &List<Unit>, name: &String) -> (r: usize)
    ensures
        r == unit_from(units@, name@, 0),
        r <= units@.len(),
{
    let mut i: usize = 0;
    while i < units.len()
        invariant
            i <= units@.len(),
            unit_from(units@, name@, 0) == unit_from(units@, name@, i as int),
        decreases units@.len() - i,
    {
        if units.get(i).name == *name {
            return i;
        }
        i = i + 1;
    }
    i
}

fn same_ops(a: &List<AggOp>, b: &List<AggOp>) -> (r: bool)
    ensures
        r == (a@ == b@),
{
    if a.len() != b.len() {
        return false;
    }
    let mut i: usize = 0;
    while i < a.len()
        invariant
            i <= a@.len(),
            a@.len() == b@.len(),
            forall|k: int| 0 <= k < i ==> a@[k] == b@[k],
        decreases a@.len() - i,
    {
        if *a.get(i) != *b.get(i) {
            return false;
        }
        i = i + 1;
    }
    assert(a@ =~= b@);
    true
}

/// The units of the rules from place `i` on, after `acc`. Rules of one name
/// must agree in their heads.
pub open spec fn units_from(
    rules: Seq<RuleV>,
    customs: Seq<CustomV>,
    i: int,
    acc: Seq<UnitV>,
) -> Result<Seq<UnitV>, Fault>
    decreases rules.len() - i,
{
    if i < 0 || i >= rules.len() {
        Ok(acc)
    } else {
        match resolved_from(rules[i].head, customs, 0, Seq::empty()) {
            Err(f) => Err(f),
            Ok(ops) => {
                let u = unit_from(acc, rules[i].name, 0);
                if u < acc.len() {
                    if acc[u].ops == ops {
                        units_from(rules, customs, i + 1, acc)
                    } else {
                        Err(fault_on(ErrKind::AggregateMixed, rules[i].name))
                    }
                } else {
                    match shape_of(ops, customs) {
                        Err(f) => Err(f),
                        Ok(shape) => units_from(
                            rules,
                            customs,
                            i + 1,
                            acc.push(UnitV { name: rules[i].name, ops, shape }),
                        ),
                    }
                }
            },
        }
    }
}

/// The units of rules.
pub fn make_units(rules: &List<Rule>, customs: &List<Custom>) -> (r: Result<List<Unit>, DbError>)
    ensures
        outcome(r) == units_from(rules@, customs@, 0, Seq::empty()),
{
    let mut acc: List<Unit> = List::new();
    let mut i: usize = 0;
    while i < rules.len()
        invariant
            i <= rules@.len(),
            units_from(rules@, customs@, 0, Seq::empty()) == units_from(
                rules@,
                customs@,
                i as int,
                acc@,
            ),
        decreases rules@.len() - i,
    {
        let rule = rules.get(i);
        match resolve_head(&rule.head, customs) {
            Err(e) => {
                return Err(e);
            },
            Ok(ops) => {
                let u = find_unit(&acc, &rule.name);
                if u < acc.len() {
                    if !same_ops(&acc.get(u).ops, &ops) {
                        return Err(err_on(ErrKind::AggregateMixed, rule.name.as_str()));
                    }
                } else {
                    match shape(&ops, customs) {
                        Err(e) => {
                            return Err(e);
                        },
                        Ok(shape) => {
                            acc.push(Unit { name: rule.name.clone(), ops, shape });
                        },
                    }
                }
            },
        }
        i = i + 1;
    }
    Ok(acc)
}

/// Whether a rule must wait until the one that it refers to is complete: where
/// it negates it, and where that one is aggregated, unless a meet refers to
/// itself.
pub open spec fn waits(units: Seq<UnitV>, h: int, t: int, neg: bool) -> bool {
    neg || (units[t].shape != Shape::Plain && !(t == h && units[t].shape != Shape::Normal))
}

/// The level that a reference to a name forces on unit `h`.
pub open spec fn forced(
    units: Seq<UnitV>,
    levels: Seq<u64>,
    h: int,
    name: Seq<char>,
    neg: bool,
) -> int {
    let t = unit_from(units, name, 0);
    if t >= units.len() || t >= levels.len() {
        0
    } else if waits(units, h, t, neg) {
        levels[t] + 1
    } else {
        levels[t] as int
    }
}

/// The level that an atom forces on unit `h`.
pub open spec fn forced_by(
    units: Seq<UnitV>,
    levels: Seq<u64>,
    h: int,
    a: AtomV,
    whole: bool,
) -> int {
    match a {
        AtomV::Rule(name, _, neg) => forced(units, levels, h, name, neg || whole),
        _ => 0,
    }
}

pub open spec fn greater(a: int, b: int) -> int {
    if a < b {
        b
    } else {
        a
    }
}

/// The greatest level that the atoms from place `i` on force, and `acc`.
pub open spec fn atoms_level(
    units: Seq<UnitV>,
    levels: Seq<u64>,
    h: int,
    atoms: Seq<AtomV>,
    whole: bool,
    i: int,
    acc: int,
) -> int
    decreases atoms.len() - i,
{
    if i < 0 || i >= atoms.len() {
        acc
    } else {
        atoms_level(
            units,
            levels,
            h,
            atoms,
            whole,
            i + 1,
            greater(acc, forced_by(units, levels, h, atoms[i], whole)),
        )
    }
}

/// The greatest level that the clauses from place `i` on force, and `acc`.
pub open spec fn clauses_level(
    units: Seq<UnitV>,
    levels: Seq<u64>,
    h: int,
    cs: Seq<Seq<AtomV>>,
    i: int,
    acc: int,
) -> int
    decreases cs.len() - i,
{
    if i < 0 || i >= cs.len() {
        acc
    } else {
        clauses_level(
            units,
            levels,
            h,
            cs,
            i + 1,
            atoms_level(units, levels, h, cs[i], false, 0, acc),
        )
    }
}

/// The greatest level that a body forces, and `acc`. A fixed rule needs the
/// whole of its inputs.
pub open spec fn body_level(
    units: Seq<UnitV>,
    levels: Seq<u64>,
    h: int,
    b: BodyV,
    acc: int,
) -> int {
    match b {
        BodyV::Clauses(cs) => clauses_level(units, levels, h, cs, 0, acc),
        BodyV::Rows(_) => acc,
        BodyV::Fixed(_, inputs, _) => atoms_level(units, levels, h, inputs, true, 0, acc),
    }
}

/// A level no greater than any that is in use.
pub open spec fn low_levels(levels: Seq<u64>, bound: int) -> bool {
    forall|i: int| 0 <= i < levels.len() ==> (#[trigger] levels[i]) <= bound
}

fn level_of_name(
    units: &List<Unit>,
    levels: &Vec<u64>,
    h: usize,
    name: &String,
    neg: bool,
) -> (r: u64)
    requires
        low_levels(levels@, u64::MAX - 1),
    ensures
        r == forced(units@, levels@, h as int, name@, neg),
{
    let t = find_unit(units, name);
    if t >= units.len() || t >= levels.len() {
        return 0;
    }
    let s = units.get(t).shape;
    if neg || (s != Shape::Plain && !(t == h && s != Shape::Normal)) {
        levels[t] + 1
    } else {
        levels[t]
    }
}

fn level_of_atoms(
    units: &List<Unit>,
    levels: &Vec<u64>,
    h: usize,
    atoms: &List<Atom>,
    whole: bool,
    start: u64,
) -> (r: u64)
    requires
        low_levels(levels@, u64::MAX - 1),
    ensures
        r == atoms_level(units@, levels@, h as int, atoms@, whole, 0, start as int),
{
    let mut acc: u64 = start;
    let mut i: usize = 0;
    while i < atoms.len()
        invariant
            i <= atoms@.len(),
            low_levels(levels@, u64::MAX - 1),
            atoms_level(units@, levels@, h as int, atoms@, whole, 0, start as int) == atoms_level(
                units@,
                levels@,
                h as int,
                atoms@,
                whole,
                i as int,
                acc as int,
            ),
        decreases atoms@.len() - i,
    {
        match atoms.get(i) {
            Atom::Rule(name, _, neg) => {
                let l = level_of_name(units, levels, h, name, *neg || whole);
                if acc < l {
                    acc = l;
                }
            },
            _ => {},
        }
        i = i + 1;
    }
    acc
}

fn level_of_body(units: &List<Unit>, levels: &Vec<u64>, h: usize, b: &Body, start: u64) -> (r: u64)
    requires
        low_levels(levels@, u64::MAX - 1),
    ensures
        r == body_level(units@, levels@, h as int, b@, start as int),
{
    match b {
        Body::Clauses(cs) => {
            let mut acc: u64 = start;
            let mut i: usize = 0;
            while i < cs.len()
                invariant
                    i <= cs@.len(),
                    low_levels(levels@, u64::MAX - 1),
                    clauses_level(units@, levels@, h as int, cs@, 0, start as int)
                        == clauses_level(units@, levels@, h as int, cs@, i as int, acc as int),
                decreases cs@.len() - i,
            {
                acc = level_of_atoms(units, levels, h, cs.get(i), false, acc);
                i = i + 1;
            }
            acc
        },
        Body::Rows(_) => start,
        Body::Fixed(_, inputs, _) => level_of_atoms(units, levels, h, inputs, true, start),
    }
}

/// The least level that is too great: with `n` units no chain needs it.
pub open spec fn ceiling(units: Seq<UnitV>) -> int {
    units.len() as int + 1
}

pub open spec fn lesser_level(a: int, b: int) -> u64 {
    if a < b {
        a as u64
    } else {
        b as u64
    }
}

/// The levels after the rules from place `i` on have forced theirs.
pub open spec fn swept_from(
    rules: Seq<RuleV>,
    units: Seq<UnitV>,
    i: int,
    levels: Seq<u64>,
) -> Seq<u64>
    decreases rules.len() - i,
{
    if i < 0 || i >= rules.len() {
        levels
    } else {
        let h = unit_from(units, rules[i].name, 0);
        if h >= levels.len() {
            swept_from(rules, units, i + 1, levels)
        } else {
            swept_from(
                rules,
                units,
                i + 1,
                levels.update(
                    h,
                    lesser_level(
                        body_level(units, levels, h, rules[i].body, levels[h] as int),
                        ceiling(units),
                    ),
                ),
            )
        }
    }
}

/// The levels once a round changes none of them, after `left` rounds at most.
pub open spec fn levels_from(
    rules: Seq<RuleV>,
    units: Seq<UnitV>,
    levels: Seq<u64>,
    left: nat,
) -> Option<Seq<u64>>
    decreases left,
{
    let next = swept_from(rules, units, 0, levels);
    if next == levels {
        Some(levels)
    } else if left == 0 {
        None
    } else {
        levels_from(rules, units, next, (left - 1) as nat)
    }
}

/// How many rules a query may have: their levels are numbers of 64 bits.
pub const MOST_UNITS: u64 = 0xffff_ffff_ffff_fffd;

/// How often the levels of `n` units can rise.
pub open spec fn rounds(n: int) -> nat {
    ((n + 1) * n) as nat
}

/// The level of every unit, where each rule has one that is great enough.
pub open spec fn strata_of(rules: Seq<RuleV>, units: Seq<UnitV>) -> Result<Seq<u64>, Fault> {
    if units.len() > MOST_UNITS {
        Err(fault(ErrKind::Unstratifiable))
    } else {
        match levels_from(
            rules,
            units,
            Seq::new(units.len(), |i: int| 0u64),
            rounds(units.len() as int),
        ) {
            Some(l) => if low_levels(l, units.len() as int) {
                Ok(l)
            } else {
                Err(fault(ErrKind::Unstratifiable))
            },
            None => Err(fault(ErrKind::Unstratifiable)),
        }
    }
}

fn sweep(rules: &List<Rule>, units: &List<Unit>, levels: Vec<u64>) -> (r: Vec<u64>)
    requires
        units@.len() <= MOST_UNITS,
        low_levels(levels@, ceiling(units@)),
    ensures
        r@ == swept_from(rules@, units@, 0, levels@),
        r@.len() == levels@.len(),
        low_levels(r@, ceiling(units@)),
{
    let ghost first = levels@;
    let mut out = levels;
    let top: u64 = units.len() as u64 + 1;
    let mut i: usize = 0;
    while i < rules.len()
        invariant
            i <= rules@.len(),
            units@.len() <= MOST_UNITS,
            top == ceiling(units@),
            out@.len() == first.len(),
            low_levels(out@, ceiling(units@)),
            swept_from(rules@, units@, 0, first) == swept_from(rules@, units@, i as int, out@),
        decreases rules@.len() - i,
    {
        let rule = rules.get(i);
        let h = find_unit(units, &rule.name);
        if h < out.len() {
            let l = level_of_body(units, &out, h, &rule.body, out[h]);
            let new: u64 = if l < top {
                l
            } else {
                top
            };
            out.set(h, new);
        }
        i = i + 1;
    }
    out
}

fn same_levels(a: &Vec<u64>, b: &Vec<u64>) -> (r: bool)
    ensures
        r == (a@ == b@),
{
    if a.len() != b.len() {
        return false;
    }
    let mut i: usize = 0;
    while i < a.len()
        invariant
            i <= a@.len(),
            a@.len() == b@.len(),
            forall|k: int| 0 <= k < i ==> a@[k] == b@[k],
        decreases a@.len() - i,
    {
        if a[i] != b[i] {
            return false;
        }
        i = i + 1;
    }
    assert(a@ =~= b@);
    true
}

fn none_above(levels: &Vec<u64>, bound: u64) -> (r: bool)
    ensures
        r == low_levels(levels@, bound as int),
{
    let mut i: usize = 0;
    while i < levels.len()
        invariant
            i <= levels@.len(),
            forall|k: int| 0 <= k < i ==> (#[trigger] levels@[k]) <= bound,
        decreases levels@.len() - i,
    {
        if levels[i] > bound {
            return false;
        }
        i = i + 1;
    }
    true
}

/// What levels are, with the error by view.
pub open spec fn outcome_levels(r: Result<Vec<u64>, DbError>) -> Result<Seq<u64>, Fault> {
    match r {
        Ok(v) => Ok(v@),
        Err(e) => Err(e@),
    }
}

/// The level of every unit.
pub fn stratify(rules: &List<Rule>, units: &List<Unit>) -> (r: Result<Vec<u64>, DbError>)
    ensures
        outcome_levels(r) == strata_of(rules@, units@),
        r is Ok ==> r->Ok_0@.len() == units@.len(),
{
    let n = units.len();
    if n as u64 > MOST_UNITS {
        return Err(err(ErrKind::Unstratifiable));
    }
    let mut levels: Vec<u64> = Vec::new();
    while levels.len() < n
        invariant
            levels@.len() <= n,
            forall|k: int| 0 <= k < levels@.len() ==> levels@[k] == 0,
        decreases n - levels@.len(),
    {
        levels.push(0);
    }
    let ghost zeros = Seq::new(units@.len(), |i: int| 0u64);
    assert(levels@ =~= zeros);
    assert(0 <= (n + 1) * n <= 0xffff_ffff_ffff_fffe * 0xffff_ffff_ffff_fffd) by (nonlinear_arith)
        requires
            0 <= n <= 0xffff_ffff_ffff_fffd,
    ;
    let mut left: u128 = (n as u128 + 1) * n as u128;
    loop
        invariant
            n == units@.len(),
            n <= MOST_UNITS,
            levels@.len() == n,
            low_levels(levels@, ceiling(units@)),
            levels_from(rules@, units@, zeros, rounds(n as int)) == levels_from(
                rules@,
                units@,
                levels@,
                left as nat,
            ),
            zeros == Seq::new(units@.len(), |i: int| 0u64),
        decreases left,
    {
        let mut copy: Vec<u64> = levels.clone();
        assert(copy@ =~= levels@);
        let next = sweep(rules, units, copy);
        if same_levels(&next, &levels) {
            if none_above(&levels, n as u64) {
                return Ok(levels);
            } else {
                return Err(err(ErrKind::Unstratifiable));
            }
        }
        if left == 0 {
            return Err(err(ErrKind::Unstratifiable));
        }
        left = left - 1;
        levels = next;
    }
}

/// Whether no reference of an atom forces more than the level of its unit.
pub open spec fn content(
    units: Seq<UnitV>,
    levels: Seq<u64>,
    h: int,
    a: AtomV,
    whole: bool,
) -> bool {
    forced_by(units, levels, h, a, whole) <= levels[h]
}

/// Whether the level of a rule is great enough for everything it refers to.
pub open spec fn rule_content(units: Seq<UnitV>, levels: Seq<u64>, r: RuleV) -> bool {
    let h = unit_from(units, r.name, 0);
    h < levels.len() ==> match r.body {
        BodyV::Clauses(cs) => forall|i: int, j: int|
            0 <= i < cs.len() && 0 <= j < cs[i].len() ==> content(
                units,
                levels,
                h,
                #[trigger] cs[i][j],
                false,
            ),
        BodyV::Rows(_) => true,
        BodyV::Fixed(_, inputs, _) => forall|j: int|
            0 <= j < inputs.len() ==> content(units, levels, h, #[trigger] inputs[j], true),
    }
}

proof fn lemma_atoms_level(
    units: Seq<UnitV>,
    levels: Seq<u64>,
    h: int,
    atoms: Seq<AtomV>,
    whole: bool,
    i: int,
    acc: int,
)
    requires
        0 <= i,
    ensures
        acc <= atoms_level(units, levels, h, atoms, whole, i, acc),
        forall|j: int|
            i <= j < atoms.len() ==> forced_by(units, levels, h, #[trigger] atoms[j], whole)
                <= atoms_level(units, levels, h, atoms, whole, i, acc),
    decreases atoms.len() - i,
{
    if i < atoms.len() {
        lemma_atoms_level(
            units,
            levels,
            h,
            atoms,
            whole,
            i + 1,
            greater(acc, forced_by(units, levels, h, atoms[i], whole)),
        );
    }
}

proof fn lemma_clauses_level(
    units: Seq<UnitV>,
    levels: Seq<u64>,
    h: int,
    cs: Seq<Seq<AtomV>>,
    i: int,
    acc: int,
)
    requires
        0 <= i,
    ensures
        acc <= clauses_level(units, levels, h, cs, i, acc),
        forall|k: int, j: int|
            i <= k < cs.len() && 0 <= j < cs[k].len() ==> forced_by(
                units,
                levels,
                h,
                #[trigger] cs[k][j],
                false,
            ) <= clauses_level(units, levels, h, cs, i, acc),
    decreases cs.len() - i,
{
    if i < cs.len() {
        lemma_atoms_level(units, levels, h, cs[i], false, 0, acc);
        lemma_clauses_level(
            units,
            levels,
            h,
            cs,
            i + 1,
            atoms_level(units, levels, h, cs[i], false, 0, acc),
        );
    }
}

proof fn lemma_body_level(units: Seq<UnitV>, levels: Seq<u64>, h: int, b: BodyV, acc: int)
    ensures
        acc <= body_level(units, levels, h, b, acc),
{
    match b {
        BodyV::Clauses(cs) => lemma_clauses_level(units, levels, h, cs, 0, acc),
        BodyV::Rows(_) => {},
        BodyV::Fixed(_, inputs, _) => lemma_atoms_level(units, levels, h, inputs, true, 0, acc),
    }
}

proof fn lemma_swept(rules: Seq<RuleV>, units: Seq<UnitV>, i: int, levels: Seq<u64>)
    requires
        0 <= i,
        units.len() <= MOST_UNITS,
        low_levels(levels, ceiling(units)),
    ensures
        swept_from(rules, units, i, levels).len() == levels.len(),
        forall|k: int|
            0 <= k < levels.len() ==> levels[k] <= #[trigger] swept_from(
                rules,
                units,
                i,
                levels,
            )[k],
    decreases rules.len() - i,
{
    if i < rules.len() {
        let h = unit_from(units, rules[i].name, 0);
        lemma_unit_from(units, rules[i].name, 0);
        if h < levels.len() {
            let b = body_level(units, levels, h, rules[i].body, levels[h] as int);
            lemma_body_level(units, levels, h, rules[i].body, levels[h] as int);
            let next = levels.update(h, lesser_level(b, ceiling(units)));
            assert(low_levels(next, ceiling(units)));
            lemma_swept(rules, units, i + 1, next);
            assert forall|k: int| 0 <= k < levels.len() implies levels[k] <= #[trigger] swept_from(
                rules,
                units,
                i,
                levels,
            )[k] by {
                assert(levels[k] <= next[k]);
                assert(next[k] <= swept_from(rules, units, i + 1, next)[k]);
            }
        } else {
            lemma_swept(rules, units, i + 1, levels);
        }
    }
}

proof fn lemma_unit_from(units: Seq<UnitV>, name: Seq<char>, i: int)
    requires
        0 <= i <= units.len(),
    ensures
        i <= unit_from(units, name, i) <= units.len(),
    decreases units.len() - i,
{
    if i < units.len() && units[i].name != name {
        lemma_unit_from(units, name, i + 1);
    }
}

proof fn lemma_still(rules: Seq<RuleV>, units: Seq<UnitV>, i: int, levels: Seq<u64>)
    requires
        0 <= i,
        units.len() <= MOST_UNITS,
        low_levels(levels, units.len() as int),
        swept_from(rules, units, i, levels) == levels,
    ensures
        forall|k: int|
            i <= k < rules.len() ==> rule_content(units, levels, #[trigger] rules[k]),
    decreases rules.len() - i,
{
    if i < rules.len() {
        let h = unit_from(units, rules[i].name, 0);
        lemma_unit_from(units, rules[i].name, 0);
        if h < levels.len() {
            let b = body_level(units, levels, h, rules[i].body, levels[h] as int);
            lemma_body_level(units, levels, h, rules[i].body, levels[h] as int);
            let next = levels.update(h, lesser_level(b, ceiling(units)));
            assert(low_levels(next, ceiling(units)));
            lemma_swept(rules, units, i + 1, next);
            assert(next[h] <= swept_from(rules, units, i + 1, next)[h]);
            assert(next[h] <= levels[h]);
            assert(b == levels[h]);
            assert(next =~= levels);
            match rules[i].body {
                BodyV::Clauses(cs) => {
                    lemma_clauses_level(units, levels, h, cs, 0, levels[h] as int);
                },
                BodyV::Rows(_) => {},
                BodyV::Fixed(_, inputs, _) => {
                    lemma_atoms_level(units, levels, h, inputs, true, 0, levels[h] as int);
                },
            }
            assert(rule_content(units, levels, rules[i]));
        }
        lemma_still(rules, units, i + 1, levels);
    }
}

proof fn lemma_levels_from(rules: Seq<RuleV>, units: Seq<UnitV>, levels: Seq<u64>, left: nat)
    ensures
        levels_from(rules, units, levels, left) matches Some(l) ==> swept_from(rules, units, 0, l)
            == l,
    decreases left,
{
    let next = swept_from(rules, units, 0, levels);
    if next != levels && left > 0 {
        lemma_levels_from(rules, units, next, (left - 1) as nat);
    }
}

/// Where rules can be ordered, every rule stands at least as high as the rules
/// it refers to, and higher than those that it must wait for.
pub proof fn law_strata(rules: Seq<RuleV>, units: Seq<UnitV>)
    ensures
        strata_of(rules, units) matches Ok(l) ==> forall|k: int|
            0 <= k < rules.len() ==> rule_content(units, l, #[trigger] rules[k]),
{
    if let Ok(l) = strata_of(rules, units) {
        lemma_levels_from(
            rules,
            units,
            Seq::new(units.len(), |i: int| 0u64),
            rounds(units.len() as int),
        );
        lemma_still(rules, units, 0, l);
    }
}

} // verus!
