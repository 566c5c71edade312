//! The order in which the conditions of a clause are met.
use vstd::prelude::*;

use crate::bind::{
    append_terms, bind_var, bound_with, is_negated, negated, option, option_of, terms_told,
    told_terms,
};
use crate::expr::{Expr, ExprV, exprs_of, find, place};
use crate::list::{Dup, List};
use crate::query::{Atom, AtomV, Field, FieldV, Fields, FieldsV};

verus! {

/// Whether every variable of an expression is among the names.
pub open spec fn closed_in(e: ExprV, cols: Seq<Seq<char>>) -> bool
    decreases e, 0int,
{
    match e {
        ExprV::Const(_) => true,
        ExprV::Var(n) => place(cols, n) < cols.len(),
        ExprV::Call(_, args) => all_closed_from(args, 0, cols),
    }
}

/// Whether the expressions from place `i` on have no other variables.
pub open spec fn all_closed_from(args: Seq<ExprV>, i: int, cols: Seq<Seq<char>>) -> bool
    decreases args, args.len() - i,
{
    if i < 0 || i >= args.len() {
        true
    } else {
        closed_in(args[i], cols) && all_closed_from(args, i + 1, cols)
    }
}

/// Whether every variable of an expression is among the names.
pub fn is_closed(e: &Expr, cols: &List<String>) -> (r: bool)
    ensures
        r == closed_in(e@, cols@),
    decreases e,
{
    match e {
        Expr::Const(_) => true,
        Expr::Var(n) => find(cols, n) < cols.len(),
        Expr::Call(op, args) => {
            let mut i: usize = 0;
            let ghost all = exprs_of(args@);
            while i < args.len()
                invariant
                    i <= args@.len(),
                    e == Expr::Call(*op, *args),
                    all == exprs_of(args@),
                    closed_in(e@, cols@) == all_closed_from(all, 0, cols@),
                    all_closed_from(all, 0, cols@) == all_closed_from(all, i as int, cols@),
                decreases args@.len() - i,
            {
                if !is_closed(&args[i], cols) {
                    return false;
                }
                i = i + 1;
            }
            true
        },
    }
}

/// The variables that are bound once the terms from place `i` on are matched.
pub open spec fn bound_from(terms: Seq<ExprV>, i: int, cols: Seq<Seq<char>>) -> Seq<Seq<char>>
    decreases terms.len() - i,
{
    if i < 0 || i >= terms.len() {
        cols
    } else {
        match terms[i] {
            ExprV::Var(n) => bound_from(terms, i + 1, bound_with(cols, n)),
            _ => bound_from(terms, i + 1, cols),
        }
    }
}

fn bind_terms(terms: &List<Expr>, cols: List<String>) -> (r: List<String>)
    ensures
        r@ == bound_from(terms@, 0, cols@),
{
    let ghost goal = bound_from(terms@, 0, cols@);
    let mut out = cols;
    let mut i: usize = 0;
    while i < terms.len()
        invariant
            i <= terms@.len(),
            goal == bound_from(terms@, i as int, out@),
        decreases terms@.len() - i,
    {
        match terms.get(i) {
            Expr::Var(n) => {
                out = bind_var(out, n);
            },
            _ => {},
        }
        i = i + 1;
    }
    out
}

/// Whether the terms from place `i` on can be matched: what is computed in them
/// has no variable that is not bound by then.
pub open spec fn matchable_from(terms: Seq<ExprV>, i: int, cols: Seq<Seq<char>>) -> bool
    decreases terms.len() - i,
{
    if i < 0 || i >= terms.len() {
        true
    } else {
        match terms[i] {
            ExprV::Var(n) => matchable_from(terms, i + 1, bound_with(cols, n)),
            e => closed_in(e, cols) && matchable_from(terms, i + 1, cols),
        }
    }
}

fn matchable(terms: &List<Expr>, cols: &List<String>) -> (r: bool)
    ensures
        r == matchable_from(terms@, 0, cols@),
{
    let ghost goal = matchable_from(terms@, 0, cols@);
    let mut known = cols.dup();
    let mut i: usize = 0;
    while i < terms.len()
        invariant
            i <= terms@.len(),
            goal == matchable_from(terms@, 0, cols@),
            goal == matchable_from(terms@, i as int, known@),
        decreases terms@.len() - i,
    {
        match terms.get(i) {
            Expr::Var(n) => {
                known = bind_var(known, n);
            },
            e => {
                if !is_closed(e, &known) {
                    return false;
                }
            },
        }
        i = i + 1;
    }
    true
}

/// Whether the terms from place `i` on have no variable that is not bound.
pub open spec fn settled_from(terms: Seq<ExprV>, i: int, cols: Seq<Seq<char>>) -> bool
    decreases terms.len() - i,
{
    if i < 0 || i >= terms.len() {
        true
    } else {
        (terms[i] == ExprV::Var("_"@) || closed_in(terms[i], cols)) && settled_from(
            terms,
            i + 1,
            cols,
        )
    }
}

fn is_blank(e: &Expr) -> (r: bool)
    ensures
        r == (e@ == ExprV::Var("_"@)),
{
    match e {
        Expr::Var(n) => *n == "_".to_owned(),
        _ => false,
    }
}

fn are_settled(terms: &List<Expr>, cols: &List<String>) -> (r: bool)
    ensures
        r == settled_from(terms@, 0, cols@),
{
    let mut i: usize = 0;
    while i < terms.len()
        invariant
            i <= terms@.len(),
            settled_from(terms@, 0, cols@) == settled_from(terms@, i as int, cols@),
        decreases terms@.len() - i,
    {
        if !(is_blank(terms.get(i)) || is_closed(terms.get(i), cols)) {
            return false;
        }
        i = i + 1;
    }
    true
}

/// The terms of fields.
pub open spec fn field_terms(fs: Seq<FieldV>) -> Seq<ExprV> {
    Seq::new(fs.len(), |i: int| fs[i].term)
}

fn terms_of_fields(fs: &List<Field>) -> (r: List<Expr>)
    ensures
        r@ == field_terms(fs@),
{
    let mut r: List<Expr> = List::new();
    let mut i: usize = 0;
    while i < fs.len()
        invariant
            i <= fs@.len(),
            r@ =~= field_terms(fs@).take(i as int),
        decreases fs@.len() - i,
    {
        r.push(fs.get(i).term.dup());
        i = i + 1;
    }
    assert(field_terms(fs@).take(i as int) =~= field_terms(fs@));
    r
}

/// The terms that a condition matches.
pub open spec fn atom_terms(a: AtomV) -> Seq<ExprV> {
    match a {
        AtomV::Rule(_, terms, _) => terms,
        AtomV::Stored(_, FieldsV::Places(terms), _, _) => terms,
        AtomV::Stored(_, FieldsV::Names(fs), _, _) => field_terms(fs),
        AtomV::Search(_, _, fs, opts) => field_terms(fs) + told_terms(opts),
        _ => Seq::empty(),
    }
}

fn terms_of_atom(a: &Atom) -> (r: List<Expr>)
    ensures
        r@ == atom_terms(a@),
{
    match a {
        Atom::Rule(_, terms, _) => terms.dup(),
        Atom::Stored(_, Fields::Places(terms), _, _) => terms.dup(),
        Atom::Stored(_, Fields::Names(fs), _, _) => terms_of_fields(fs),
        Atom::Search(_, _, fs, opts) => append_terms(terms_of_fields(fs), &terms_told(opts)),
        _ => List::new(),
    }
}

/// Whether a variable occurs twice in the terms from place `i` on, or in them
/// and among those seen before.
pub open spec fn repeats_from(terms: Seq<ExprV>, i: int, seen: Seq<Seq<char>>) -> bool
    decreases terms.len() - i,
{
    if i < 0 || i >= terms.len() {
        false
    } else {
        match terms[i] {
            ExprV::Var(n) => place(seen, n) < seen.len() || repeats_from(
                terms,
                i + 1,
                bound_with(seen, n),
            ),
            _ => repeats_from(terms, i + 1, seen),
        }
    }
}

fn repeats(terms: &List<Expr>) -> (r: bool)
    ensures
        r == repeats_from(terms@, 0, Seq::empty()),
{
    let ghost goal = repeats_from(terms@, 0, Seq::empty());
    let mut seen: List<String> = List::new();
    let mut i: usize = 0;
    while i < terms.len()
        invariant
            i <= terms@.len(),
            goal == repeats_from(terms@, 0, Seq::empty()),
            goal == repeats_from(terms@, i as int, seen@),
        decreases terms@.len() - i,
    {
        match terms.get(i) {
            Expr::Var(n) => {
                if find(&seen, n) < seen.len() {
                    return true;
                }
                seen = bind_var(seen, n);
            },
            _ => {},
        }
        i = i + 1;
    }
    false
}

/// Whether a variable occurs twice in one of the conditions from place `i` on.
pub open spec fn some_repeats(atoms: Seq<AtomV>, i: int) -> bool
    decreases atoms.len() - i,
{
    if i < 0 || i >= atoms.len() {
        false
    } else {
        repeats_from(atom_terms(atoms[i]), 0, Seq::empty()) || some_repeats(atoms, i + 1)
    }
}

/// Whether a variable occurs twice in one of the conditions.
pub fn any_repeats(atoms: &List<Atom>) -> (r: bool)
    ensures
        r == some_repeats(atoms@, 0),
{
    let mut i: usize = 0;
    while i < atoms.len()
        invariant
            i <= atoms@.len(),
            some_repeats(atoms@, 0) == some_repeats(atoms@, i as int),
        decreases atoms@.len() - i,
    {
        if repeats(&terms_of_atom(atoms.get(i))) {
            return true;
        }
        i = i + 1;
    }
    false
}

/// Whether a condition can be met where these variables are bound: what it
/// computes has no other variable, and a negated one has none at all.
pub open spec fn is_ready(a: AtomV, cols: Seq<Seq<char>>) -> bool {
    match a {
        AtomV::Unify(_, e) => closed_in(e, cols),
        AtomV::Member(_, e) => closed_in(e, cols),
        AtomV::Filter(e) => closed_in(e, cols),
        AtomV::Search(_, _, _, opts) => closed_in(option_of(opts, "query"@), cols)
            && matchable_from(atom_terms(a), 0, cols),
        _ => if is_negated(a) {
            settled_from(atom_terms(a), 0, cols)
        } else {
            matchable_from(atom_terms(a), 0, cols)
        },
    }
}

fn ready(a: &Atom, cols: &List<String>) -> (r: bool)
    ensures
        r == is_ready(a@, cols@),
{
    match a {
        Atom::Unify(_, e) => is_closed(e, cols),
        Atom::Member(_, e) => is_closed(e, cols),
        Atom::Filter(e) => is_closed(e, cols),
        Atom::Search(_, _, _, opts) => is_closed(&option(opts, "query"), cols) && matchable(
            &terms_of_atom(a),
            cols,
        ),
        _ => if negated(a) {
            are_settled(&terms_of_atom(a), cols)
        } else {
            matchable(&terms_of_atom(a), cols)
        },
    }
}

/// The variables that are bound once a condition is met.
pub open spec fn bound_after(a: AtomV, cols: Seq<Seq<char>>) -> Seq<Seq<char>> {
    match a {
        AtomV::Unify(v, _) => bound_with(cols, v),
        AtomV::Member(v, _) => bound_with(cols, v),
        _ => if is_negated(a) {
            cols
        } else {
            bound_from(atom_terms(a), 0, cols)
        },
    }
}

fn bind_atom(a: &Atom, cols: List<String>) -> (r: List<String>)
    ensures
        r@ == bound_after(a@, cols@),
{
    match a {
        Atom::Unify(v, _) => bind_var(cols, v),
        Atom::Member(v, _) => bind_var(cols, v),
        _ => if negated(a) {
            cols
        } else {
            bind_terms(&terms_of_atom(a), cols)
        },
    }
}

/// The first condition from place `i` on that can be met, and the length where
/// there is none.
pub open spec fn ready_from(atoms: Seq<AtomV>, cols: Seq<Seq<char>>, i: int) -> int
    decreases atoms.len() - i,
{
    if i < 0 || i >= atoms.len() {
        atoms.len() as int
    } else if is_ready(atoms[i], cols) {
        i
    } else {
        ready_from(atoms, cols, i + 1)
    }
}

fn find_ready(atoms: &List<Atom>, cols: &List<String>) -> (r: usize)
    ensures
        r == ready_from(atoms@, cols@, 0),
        r <= atoms@.len(),
{
    let mut i: usize = 0;
    while i < atoms.len()
        invariant
            i <= atoms@.len(),
            ready_from(atoms@, cols@, 0) == ready_from(atoms@, cols@, i as int),
        decreases atoms@.len() - i,
    {
        if ready(atoms.get(i), cols) {
            return i;
        }
        i = i + 1;
    }
    i
}

/// Which of the conditions is met next: the first that can be, and the first of
/// all where none can.
pub open spec fn next_of(atoms: Seq<AtomV>, cols: Seq<Seq<char>>) -> int {
    let k = ready_from(atoms, cols, 0);
    if 0 <= k < atoms.len() {
        k
    } else {
        0
    }
}

/// Conditions in the order in which they are met, after `acc`.
pub open spec fn arranged_from(atoms: Seq<AtomV>, cols: Seq<Seq<char>>, acc: Seq<AtomV>) -> Seq<
    AtomV,
>
    decreases atoms.len(),
{
    if atoms.len() == 0 {
        acc
    } else {
        let k = next_of(atoms, cols);
        arranged_from(atoms.remove(k), bound_after(atoms[k], cols), acc.push(atoms[k]))
    }
}

/// The conditions of a clause in the order in which they are met.
pub open spec fn arranged(atoms: Seq<AtomV>) -> Seq<AtomV> {
    arranged_from(atoms, Seq::empty(), Seq::empty())
}

/// Puts the conditions of a clause in the order in which they are met.
pub fn arrange(atoms: &List<Atom>) -> (r: List<Atom>)
    ensures
        r@ == arranged(atoms@),
{
    let mut left = atoms.dup();
    let mut cols: List<String> = List::new();
    let mut acc: List<Atom> = List::new();
    while left.len() > 0
        invariant
            arranged(atoms@) == arranged_from(left@, cols@, acc@),
        decreases left@.len(),
    {
        let k = find_ready(&left, &cols);
        let a = if k < left.len() {
            left.remove(k)
        } else {
            left.remove(0)
        };
        cols = bind_atom(&a, cols);
        acc.push(a);
    }
    acc
}

/// Bringing conditions in order loses none, adds none and repeats none.
pub proof fn law_arranged_is_same(atoms: Seq<AtomV>, cols: Seq<Seq<char>>, acc: Seq<AtomV>)
    ensures
        arranged_from(atoms, cols, acc).to_multiset() == atoms.to_multiset().add(acc.to_multiset()),
    decreases atoms.len(),
{
    broadcast use vstd::seq_lib::group_to_multiset_ensures;

    if atoms.len() == 0 {
        assert(atoms.to_multiset() =~= vstd::multiset::Multiset::<AtomV>::empty());
        assert(atoms.to_multiset().add(acc.to_multiset()) =~= acc.to_multiset());
    } else {
        let k = next_of(atoms, cols);
        let less = atoms.remove(k);
        let more = acc.push(atoms[k]);
        law_arranged_is_same(less, bound_after(atoms[k], cols), more);
        assert(less.to_multiset() =~= atoms.to_multiset().remove(atoms[k]));
        assert(more.to_multiset() =~= acc.to_multiset().insert(atoms[k]));
        assert(atoms.to_multiset().count(atoms[k]) > 0);
        assert(less.to_multiset().add(more.to_multiset()) =~= atoms.to_multiset().add(
            acc.to_multiset(),
        ));
    }
}

/// Conditions that can all be met as they stand are met in that order.
pub proof fn law_ready_order_stays(atoms: Seq<AtomV>, cols: Seq<Seq<char>>, acc: Seq<AtomV>)
    requires
        ready_in_turn(atoms, cols, 0),
    ensures
        arranged_from(atoms, cols, acc) == acc + atoms,
    decreases atoms.len(),
{
    if atoms.len() == 0 {
        assert(acc + atoms =~= acc);
    } else {
        let rest = atoms.remove(0);
        assert(is_ready(atoms[0], cols));
        lemma_ready_rest(atoms, bound_after(atoms[0], cols), 1);
        assert(rest =~= atoms.skip(1));
        law_ready_order_stays(rest, bound_after(atoms[0], cols), acc.push(atoms[0]));
        assert(acc.push(atoms[0]) + rest =~= acc + atoms);
    }
}

/// Whether each condition from place `i` on can be met once those before it
/// are.
pub open spec fn ready_in_turn(atoms: Seq<AtomV>, cols: Seq<Seq<char>>, i: int) -> bool
    decreases atoms.len() - i,
{
    if i < 0 || i >= atoms.len() {
        true
    } else {
        is_ready(atoms[i], cols) && ready_in_turn(atoms, bound_after(atoms[i], cols), i + 1)
    }
}

proof fn lemma_ready_rest(atoms: Seq<AtomV>, cols: Seq<Seq<char>>, i: int)
    requires
        1 <= i <= atoms.len(),
        ready_in_turn(atoms, cols, i),
    ensures
        ready_in_turn(atoms.skip(1), cols, i - 1),
    decreases atoms.len() - i,
{
    if i < atoms.len() {
        assert(atoms.skip(1)[i - 1] == atoms[i]);
        lemma_ready_rest(atoms, bound_after(atoms[i], cols), i + 1);
    }
}

} // verus!
