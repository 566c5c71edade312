//! The steps in which a query is evaluated.
use vstd::prelude::*;

use crate::aggr::{Custom, CustomV};
use crate::content::{full_name, name_of_index};
use crate::error::{DbError, Fault, outcome};
use crate::list::List;
use crate::order::{arrange, arranged};
use crate::query::{Atom, AtomV, Body, BodyV, Program, ProgramV, Rule, RuleV};
use crate::route::{route, routed};
use crate::scan::{Source, SourceV};
use crate::store::{Relation, RelationV};
use crate::strata::{Unit, UnitV, make_units, strata_of, stratify, units_from};
use crate::sysop::cols3;
use crate::table::Rows;
use crate::value::{DataValue, Tuple, Value};

verus! {

/// What is done to meet a condition.
pub open spec fn atom_text(a: AtomV) -> Seq<char> {
    match a {
        AtomV::Rule(_, _, neg) => if neg {
            "neg_mem"@
        } else {
            "load_mem"@
        },
        AtomV::Stored(_, _, _, neg) => if neg {
            "neg_stored"@
        } else {
            "load_stored"@
        },
        AtomV::Search(_, _, _, _) => "search"@,
        AtomV::Unify(_, _) => "unify"@,
        AtomV::Member(_, _) => "member"@,
        AtomV::Filter(_) => "filter"@,
    }
}

fn show_atom(a: &Atom) -> (r: String)
    ensures
        r@ == atom_text(a@),
{
    match a {
        Atom::Rule(_, _, neg) => if *neg {
            "neg_mem".to_owned()
        } else {
            "load_mem".to_owned()
        },
        Atom::Stored(_, _, _, neg) => if *neg {
            "neg_stored".to_owned()
        } else {
            "load_stored".to_owned()
        },
        Atom::Search(_, _, _, _) => "search".to_owned(),
        Atom::Unify(_, _) => "unify".to_owned(),
        Atom::Member(_, _) => "member".to_owned(),
        Atom::Filter(_) => "filter".to_owned(),
    }
}

/// What a condition is about: a rule, a relation or the index that serves it
/// (both behind a colon), or a variable.
pub open spec fn atom_ref(rels: Seq<RelationV>, a: AtomV) -> Value {
    match a {
        AtomV::Rule(name, _, _) => Value::Str(name),
        AtomV::Stored(name, _, _, _) => match routed(rels, a) {
            Some(r) => Value::Str(":"@ + r.index),
            None => Value::Str(":"@ + name),
        },
        AtomV::Search(base, index, _, _) => Value::Str(":"@ + full_name(base, index)),
        AtomV::Unify(v, _) => Value::Str(v),
        AtomV::Member(v, _) => Value::Str(v),
        AtomV::Filter(_) => Value::Null,
    }
}

fn ref_of_atom(rels: &List<Relation>, a: &Atom) -> (r: DataValue)
    ensures
        r@ == atom_ref(rels@, a@),
{
    match a {
        Atom::Rule(name, _, _) => DataValue::Str(name.clone()),
        Atom::Stored(name, _, _, _) => match route(rels, a) {
            Some(r) => DataValue::Str(":".to_owned().concat(r.index.as_str())),
            None => DataValue::Str(":".to_owned().concat(name.as_str())),
        },
        Atom::Search(base, index, _, _) => DataValue::Str(
            ":".to_owned().concat(name_of_index(base, index).as_str()),
        ),
        Atom::Unify(v, _) => DataValue::Str(v.clone()),
        Atom::Member(v, _) => DataValue::Str(v.clone()),
        Atom::Filter(_) => DataValue::Null,
    }
}

/// How a step of a query is listed: its level, the place and the name of its
/// rule, its place in the rule, what is done, and what it is about.
pub open spec fn step_entry(
    level: u64,
    i: int,
    name: Seq<char>,
    j: int,
    what: Seq<char>,
    about: Value,
) -> Seq<Value> {
    seq![
        Value::Int(level as i64),
        Value::Int(i as i64),
        Value::Str(name),
        Value::Int(j as i64),
        Value::Str(what),
        about,
    ]
}

fn entry_of_step(
    level: u64,
    i: usize,
    name: &String,
    j: usize,
    what: String,
    about: DataValue,
) -> (r: Tuple)
    ensures
        r@ == step_entry(level, i as int, name@, j as int, what@, about@),
{
    let ghost goal = step_entry(level, i as int, name@, j as int, what@, about@);
    let mut r: Tuple = List::new();
    r.push(DataValue::Int(level as i64));
    r.push(DataValue::Int(i as i64));
    r.push(DataValue::Str(name.clone()));
    r.push(DataValue::Int(j as i64));
    r.push(DataValue::Str(what));
    r.push(about);
    assert(r@ =~= goal);
    r
}

/// The entries of the conditions of a clause from place `j` on.
pub open spec fn atom_entries(
    rels: Seq<RelationV>,
    level: u64,
    i: int,
    name: Seq<char>,
    atoms: Seq<AtomV>,
    j: int,
    acc: Seq<Seq<Value>>,
) -> Seq<Seq<Value>>
    decreases atoms.len() - j,
{
    if j < 0 || j >= atoms.len() {
        acc
    } else {
        atom_entries(
            rels,
            level,
            i,
            name,
            atoms,
            j + 1,
            acc.push(
                step_entry(level, i, name, j, atom_text(atoms[j]), atom_ref(rels, atoms[j])),
            ),
        )
    }
}

fn list_atoms(
    rels: &List<Relation>,
    level: u64,
    i: usize,
    name: &String,
    atoms: &List<Atom>,
    acc: Rows,
) -> (r: Rows)
    ensures
        r@ == atom_entries(rels@, level, i as int, name@, atoms@, 0, acc@),
{
    let ghost goal = atom_entries(rels@, level, i as int, name@, atoms@, 0, acc@);
    let mut out = acc;
    let mut j: usize = 0;
    while j < atoms.len()
        invariant
            j <= atoms@.len(),
            goal == atom_entries(rels@, level, i as int, name@, atoms@, j as int, out@),
        decreases atoms@.len() - j,
    {
        let a = atoms.get(j);
        out.push(entry_of_step(level, i, name, j, show_atom(a), ref_of_atom(rels, a)));
        j = j + 1;
    }
    out
}

/// The entries of the clauses of a rule from place `c` on, their conditions in
/// the order in which they are met.
pub open spec fn clause_entries(
    rels: Seq<RelationV>,
    level: u64,
    i: int,
    name: Seq<char>,
    cs: Seq<Seq<AtomV>>,
    c: int,
    acc: Seq<Seq<Value>>,
) -> Seq<Seq<Value>>
    decreases cs.len() - c,
{
    if c < 0 || c >= cs.len() {
        acc
    } else {
        clause_entries(
            rels,
            level,
            i,
            name,
            cs,
            c + 1,
            atom_entries(rels, level, i, name, arranged(cs[c]), 0, acc),
        )
    }
}

fn list_clauses(
    rels: &List<Relation>,
    level: u64,
    i: usize,
    name: &String,
    cs: &List<List<Atom>>,
    acc: Rows,
) -> (r: Rows)
    ensures
        r@ == clause_entries(rels@, level, i as int, name@, cs@, 0, acc@),
{
    let ghost goal = clause_entries(rels@, level, i as int, name@, cs@, 0, acc@);
    let mut out = acc;
    let mut c: usize = 0;
    while c < cs.len()
        invariant
            c <= cs@.len(),
            goal == clause_entries(rels@, level, i as int, name@, cs@, c as int, out@),
        decreases cs@.len() - c,
    {
        out = list_atoms(rels, level, i, name, &arrange(cs.get(c)), out);
        c = c + 1;
    }
    out
}

/// The level of a unit of a name from place `i` on, and zero where there is
/// none.
pub open spec fn level_at(units: Seq<UnitV>, levels: Seq<u64>, name: Seq<char>, i: int) -> u64
    decreases units.len() - i,
{
    if i < 0 || i >= units.len() || i >= levels.len() {
        0
    } else if units[i].name == name {
        levels[i]
    } else {
        level_at(units, levels, name, i + 1)
    }
}

fn find_level(units: &List<Unit>, levels: &Vec<u64>, name: &String) -> (r: u64)
    ensures
        r == level_at(units@, levels@, name@, 0),
{
    let mut i: usize = 0;
    while i < units.len() && i < levels.len()
        invariant
            i <= units@.len(),
            i <= levels@.len(),
            level_at(units@, levels@, name@, 0) == level_at(units@, levels@, name@, i as int),
        decreases units@.len() - i,
    {
        if units.get(i).name == *name {
            return levels[i];
        }
        i = i + 1;
    }
    0
}

/// The entries of the rules from place `i` on.
pub open spec fn rule_entries(
    rels: Seq<RelationV>,
    rules: Seq<RuleV>,
    units: Seq<UnitV>,
    levels: Seq<u64>,
    i: int,
    acc: Seq<Seq<Value>>,
) -> Seq<Seq<Value>>
    decreases rules.len() - i,
{
    if i < 0 || i >= rules.len() {
        acc
    } else {
        let n = rules[i].name;
        let level = level_at(units, levels, n, 0);
        let next = match rules[i].body {
            BodyV::Clauses(cs) => clause_entries(rels, level, i, n, cs, 0, acc),
            BodyV::Rows(_) => acc.push(step_entry(level, i, n, 0, "rows"@, Value::Null)),
            BodyV::Fixed(f, _, _) => acc.push(step_entry(level, i, n, 0, "fixed"@, Value::Str(f))),
        };
        rule_entries(rels, rules, units, levels, i + 1, next)
    }
}

fn list_rules(
    rels: &List<Relation>,
    rules: &List<Rule>,
    units: &List<Unit>,
    levels: &Vec<u64>,
) -> (r: Rows)
    ensures
        r@ == rule_entries(rels@, rules@, units@, levels@, 0, Seq::empty()),
{
    let mut acc: Rows = List::new();
    let mut i: usize = 0;
    while i < rules.len()
        invariant
            i <= rules@.len(),
            rule_entries(rels@, rules@, units@, levels@, 0, Seq::empty()) == rule_entries(
                rels@,
                rules@,
                units@,
                levels@,
                i as int,
                acc@,
            ),
        decreases rules@.len() - i,
    {
        let rule = rules.get(i);
        let level = find_level(units, levels, &rule.name);
        match &rule.body {
            Body::Clauses(cs) => {
                acc = list_clauses(rels, level, i, &rule.name, cs, acc);
            },
            Body::Rows(_) => {
                acc.push(
                    entry_of_step(level, i, &rule.name, 0, "rows".to_owned(), DataValue::Null),
                );
            },
            Body::Fixed(f, _, _) => {
                let about = DataValue::Str(f.clone());
                acc.push(entry_of_step(level, i, &rule.name, 0, "fixed".to_owned(), about));
            },
        }
        i = i + 1;
    }
    acc
}

/// The steps in which a query is evaluated.
pub open spec fn explained(rels: Seq<RelationV>, p: ProgramV, customs: Seq<CustomV>) -> Result<
    SourceV,
    Fault,
> {
    match units_from(p.rules, customs, 0, Seq::empty()) {
        Err(f) => Err(f),
        Ok(units) => match strata_of(p.rules, units) {
            Err(f) => Err(f),
            Ok(levels) => Ok(
                SourceV {
                    cols: seq!["stratum"@, "rule_idx"@, "rule"@, "atom_idx"@, "op"@, "ref"@],
                    rows: rule_entries(rels, p.rules, units, levels, 0, Seq::empty()),
                },
            ),
        },
    }
}

pub fn explain(rels: &List<Relation>, p: &Program, customs: &List<Custom>) -> (r: Result<
    Source,
    DbError,
>)
    ensures
        outcome(r) == explained(rels@, p@, customs@),
{
    match make_units(&p.rules, customs) {
        Err(e) => Err(e),
        Ok(units) => match stratify(&p.rules, &units) {
            Err(e) => Err(e),
            Ok(levels) => {
                let mut cols = cols3("stratum", "rule_idx", "rule");
                cols.push("atom_idx".to_owned());
                cols.push("op".to_owned());
                cols.push("ref".to_owned());
                assert(cols@ =~= seq![
                    "stratum"@,
                    "rule_idx"@,
                    "rule"@,
                    "atom_idx"@,
                    "op"@,
                    "ref"@,
                ]);
                Ok(Source { cols, rows: list_rules(rels, &p.rules, &units, &levels) })
            },
        },
    }
}

} // verus!
