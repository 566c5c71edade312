//! The options of indices by content.
use vstd::prelude::*;

use crate::bind::{option, option_of};
use crate::error::{DbError, ErrKind, Fault, err, err_on, fault, fault_on, outcome};
use crate::expr::{Ctx, Expr, ExprV, Op, eval, eval_of, exprs_of, is_number, number};
use crate::fts::{Filter, filter_named, name_filter};
use crate::list::{Dup, List, opt_of};
use crate::mutate::{find_foreign, foreign_from};
use crate::query::{Field, FieldV};
use crate::search::{get_option, given_option, still};
use crate::store::{Lookup, Search, SearchV};
use crate::sysop::{places, places_from};
use crate::value::{DataValue, Tuple, UNIT, Value, micros, micros_of, values_of};
use crate::vector::Metric;

verus! {

/// The names in a list from place `i` on, after `acc`; nothing where something
/// else stands there.
pub open spec fn names_from(args: Seq<ExprV>, i: int, acc: Seq<Seq<char>>) -> Option<
    Seq<Seq<char>>,
>
    decreases args.len() - i,
{
    if i < 0 || i >= args.len() {
        Some(acc)
    } else {
        match args[i] {
            ExprV::Var(n) => names_from(args, i + 1, acc.push(n)),
            _ => None,
        }
    }
}

/// The names that an option gives: one, or a list of them.
pub open spec fn names_in(e: ExprV) -> Option<Seq<Seq<char>>> {
    match e {
        ExprV::Var(n) => Some(seq![n]),
        ExprV::Call(Op::MakeList, args) => names_from(args, 0, Seq::empty()),
        _ => None,
    }
}

fn get_names(e: &Expr) -> (r: Option<List<String>>)
    ensures
        opt_of(r) == names_in(e@),
{
    match e {
        Expr::Var(n) => {
            let mut one: List<String> = List::new();
            one.push(n.clone());
            assert(one@ =~= seq![n@]);
            Some(one)
        },
        Expr::Call(Op::MakeList, args) => {
            let ghost all = exprs_of(args@);
            let mut acc: List<String> = List::new();
            let mut i: usize = 0;
            while i < args.len()
                invariant
                    i <= args@.len(),
                    all == exprs_of(args@),
                    names_in(e@) == names_from(all, 0, Seq::empty()),
                    names_from(all, 0, Seq::empty()) == names_from(all, i as int, acc@),
                decreases args@.len() - i,
            {
                match &args[i] {
                    Expr::Var(n) => {
                        acc.push(n.clone());
                    },
                    _ => {
                        return None;
                    },
                }
                i = i + 1;
            }
            Some(acc)
        },
        _ => None,
    }
}

/// A count that an option gives, and another where it is not given.
pub open spec fn count_option(
    opts: Seq<FieldV>,
    name: Seq<char>,
    other: u64,
) -> Result<u64, Fault> {
    match eval_of(option_of(opts, name), Seq::empty(), Seq::empty(), still()) {
        Err(f) => Err(f),
        Ok(Value::Null) => Ok(other),
        Ok(Value::Int(n)) => if n >= 1 {
            Ok(n as u64)
        } else {
            Err(fault_on(ErrKind::TypeMismatch, name))
        },
        Ok(_) => Err(fault_on(ErrKind::TypeMismatch, name)),
    }
}

fn get_count(opts: &List<Field>, name: &str, other: u64) -> (r: Result<u64, DbError>)
    ensures
        outcome(r) == count_option(opts@, name@, other),
{
    let still = Ctx { now: 0, tick: 0, salt: 0 };
    match eval(&option(opts, name), &List::new(), &List::new(), still) {
        Err(e) => Err(e),
        Ok(DataValue::Null) => Ok(other),
        Ok(DataValue::Int(n)) => if n >= 1 {
            Ok(n as u64)
        } else {
            Err(err_on(ErrKind::TypeMismatch, name))
        },
        Ok(_) => Err(err_on(ErrKind::TypeMismatch, name)),
    }
}

/// A part that an option gives, in millionths, and another where it is not
/// given.
pub open spec fn part_option(opts: Seq<FieldV>, name: Seq<char>, other: u32) -> Result<u32, Fault> {
    match eval_of(option_of(opts, name), Seq::empty(), Seq::empty(), still()) {
        Err(f) => Err(f),
        Ok(Value::Null) => Ok(other),
        Ok(v) => if is_number(v) && 0 <= micros_of(v) <= UNIT {
            Ok(micros_of(v) as u32)
        } else {
            Err(fault_on(ErrKind::TypeMismatch, name))
        },
    }
}

fn get_part(opts: &List<Field>, name: &str, other: u32) -> (r: Result<u32, DbError>)
    ensures
        outcome(r) == part_option(opts@, name@, other),
{
    let still = Ctx { now: 0, tick: 0, salt: 0 };
    match eval(&option(opts, name), &List::new(), &List::new(), still) {
        Err(e) => Err(e),
        Ok(DataValue::Null) => Ok(other),
        Ok(v) => {
            let m: i128 = micros(&v);
            if number(&v) && 0 <= m && m <= UNIT as i128 {
                Ok(m as u32)
            } else {
                Err(err_on(ErrKind::TypeMismatch, name))
            }
        },
    }
}

/// The distance that an option names.
pub open spec fn metric_option(opts: Seq<FieldV>) -> Result<Metric, Fault> {
    match given_option(opts, "distance"@) {
        None => Ok(Metric::Squared),
        Some(ExprV::Var(n)) => if n == "L2"@ {
            Ok(Metric::Squared)
        } else if n == "Cosine"@ {
            Ok(Metric::Cosine)
        } else if n == "IP"@ {
            Ok(Metric::Inner)
        } else {
            Err(fault_on(ErrKind::UnknownFunction, n))
        },
        Some(_) => Err(fault(ErrKind::Parse)),
    }
}

/// What a result is, with its error by view.
pub open spec fn outcome_plain<T>(r: Result<T, DbError>) -> Result<T, Fault> {
    match r {
        Ok(x) => Ok(x),
        Err(e) => Err(e@),
    }
}

fn get_metric(opts: &List<Field>) -> (r: Result<Metric, DbError>)
    ensures
        outcome_plain(r) == metric_option(opts@),
{
    match get_option(opts, "distance") {
        None => Ok(Metric::Squared),
        Some(Expr::Var(n)) => if n == "L2".to_owned() {
            Ok(Metric::Squared)
        } else if n == "Cosine".to_owned() {
            Ok(Metric::Cosine)
        } else if n == "IP".to_owned() {
            Ok(Metric::Inner)
        } else {
            Err(err_on(ErrKind::UnknownFunction, n.as_str()))
        },
        Some(_) => Err(err(ErrKind::Parse)),
    }
}

/// Whether the tokenizer that an option names splits a text into characters (or
/// words).
pub open spec fn chars_option(opts: Seq<FieldV>) -> Result<bool, Fault> {
    match given_option(opts, "tokenizer"@) {
        None => Ok(false),
        Some(ExprV::Var(n)) => if n == "NGram"@ {
            Ok(true)
        } else if n == "Simple"@ {
            Ok(false)
        } else {
            Err(fault_on(ErrKind::UnknownFunction, n))
        },
        Some(_) => Err(fault(ErrKind::Parse)),
    }
}

fn get_chars(opts: &List<Field>) -> (r: Result<bool, DbError>)
    ensures
        outcome(r) == chars_option(opts@),
{
    match get_option(opts, "tokenizer") {
        None => Ok(false),
        Some(Expr::Var(n)) => if n == "NGram".to_owned() {
            Ok(true)
        } else if n == "Simple".to_owned() {
            Ok(false)
        } else {
            Err(err_on(ErrKind::UnknownFunction, n.as_str()))
        },
        Some(_) => Err(err(ErrKind::Parse)),
    }
}

/// The values of constants from place `i` on, after `acc`; nothing where
/// something else stands there.
pub open spec fn constants_from(args: Seq<ExprV>, i: int, acc: Seq<Value>) -> Option<Seq<Value>>
    decreases args.len() - i,
{
    if i < 0 || i >= args.len() {
        Some(acc)
    } else {
        match args[i] {
            ExprV::Const(v) => constants_from(args, i + 1, acc.push(v)),
            _ => None,
        }
    }
}

fn get_constants(args: &Vec<Expr>) -> (r: Option<Tuple>)
    ensures
        opt_of(r) == constants_from(exprs_of(args@), 0, Seq::empty()),
{
    let ghost all = exprs_of(args@);
    let mut acc: Tuple = List::new();
    let mut i: usize = 0;
    while i < args.len()
        invariant
            i <= args@.len(),
            all == exprs_of(args@),
            constants_from(all, 0, Seq::empty()) == constants_from(all, i as int, acc@),
        decreases args@.len() - i,
    {
        match &args[i] {
            Expr::Const(v) => {
                acc.push(v.dup());
            },
            _ => {
                return None;
            },
        }
        i = i + 1;
    }
    Some(acc)
}

/// The filter that an expression names: by a name, or by a call with constant
/// arguments.
pub open spec fn filter_in(e: ExprV) -> Result<Filter, Fault> {
    match e {
        ExprV::Var(n) => filter_named(n, Seq::empty()),
        ExprV::Call(op, args) => match constants_from(args, 0, Seq::empty()) {
            None => Err(fault(ErrKind::Parse)),
            Some(vs) => match op {
                Op::Stemmer => filter_named("Stemmer"@, vs),
                Op::Stopwords => filter_named("Stopwords"@, vs),
                _ => Err(fault(ErrKind::Parse)),
            },
        },
        _ => Err(fault(ErrKind::Parse)),
    }
}

fn get_filter(e: &Expr) -> (r: Result<Filter, DbError>)
    ensures
        outcome(r) == filter_in(e@),
{
    match e {
        Expr::Var(n) => {
            let none: Vec<DataValue> = Vec::new();
            assert(values_of(none@) =~= Seq::<Value>::empty());
            name_filter(n.as_str(), &none)
        },
        Expr::Call(op, args) => match get_constants(args) {
            None => Err(err(ErrKind::Parse)),
            Some(vs) => {
                assert(values_of(vs.items@) =~= vs@);
                match op {
                    Op::Stemmer => name_filter("Stemmer", &vs.items),
                    Op::Stopwords => name_filter("Stopwords", &vs.items),
                    _ => Err(err(ErrKind::Parse)),
                }
            },
        },
        _ => Err(err(ErrKind::Parse)),
    }
}

/// The filters that expressions from place `i` on name, after `acc`.
pub open spec fn filters_in(args: Seq<ExprV>, i: int, acc: Seq<Filter>) -> Result<
    Seq<Filter>,
    Fault,
>
    decreases args.len() - i,
{
    if i < 0 || i >= args.len() {
        Ok(acc)
    } else {
        match filter_in(args[i]) {
            Err(f) => Err(f),
            Ok(f) => filters_in(args, i + 1, acc.push(f)),
        }
    }
}

/// The filters that an option names in a list.
pub open spec fn filters_option(opts: Seq<FieldV>) -> Result<Seq<Filter>, Fault> {
    match given_option(opts, "filters"@) {
        None => Ok(Seq::empty()),
        Some(ExprV::Call(Op::MakeList, args)) => filters_in(args, 0, Seq::empty()),
        Some(_) => Err(fault(ErrKind::Parse)),
    }
}

fn get_filters(opts: &List<Field>) -> (r: Result<List<Filter>, DbError>)
    ensures
        outcome(r) == filters_option(opts@),
{
    match get_option(opts, "filters") {
        None => Ok(List::new()),
        Some(Expr::Call(Op::MakeList, args)) => {
            let ghost all = exprs_of(args@);
            let mut acc: List<Filter> = List::new();
            let mut i: usize = 0;
            while i < args.len()
                invariant
                    i <= args@.len(),
                    all == exprs_of(args@),
                    filters_option(opts@) == filters_in(all, i as int, acc@),
                decreases args@.len() - i,
            {
                match get_filter(&args[i]) {
                    Err(e) => {
                        return Err(e);
                    },
                    Ok(f) => {
                        acc.push(f);
                    },
                }
                i = i + 1;
            }
            Ok(acc)
        },
        Some(_) => Err(err(ErrKind::Parse)),
    }
}

/// The columns that the options of an index name, as places among all: one or
/// more for vectors, and one for texts.
pub open spec fn fields_option(kind: Lookup, opts: Seq<FieldV>, all: Seq<Seq<char>>) -> Result<
    Seq<usize>,
    Fault,
> {
    let e = option_of(
        opts,
        if kind == Lookup::Vectors {
            "fields"@
        } else {
            "extractor"@
        },
    );
    match names_in(e) {
        None => Err(fault(ErrKind::Parse)),
        Some(ns) => {
            let bad = foreign_from(ns, all, 0);
            if ns.len() == 0 || (kind != Lookup::Vectors && ns.len() != 1) {
                Err(fault(ErrKind::Parse))
            } else if bad < ns.len() {
                Err(fault_on(ErrKind::ColumnNotFound, ns[bad]))
            } else {
                Ok(places_from(ns, all, 0, Seq::empty()))
            }
        },
    }
}

fn get_fields(kind: Lookup, opts: &List<Field>, all: &List<String>) -> (r: Result<
    List<usize>,
    DbError,
>)
    ensures
        outcome(r) == fields_option(kind, opts@, all@),
{
    let e = option(
        opts,
        if kind == Lookup::Vectors {
            "fields"
        } else {
            "extractor"
        },
    );
    match get_names(&e) {
        None => Err(err(ErrKind::Parse)),
        Some(ns) => {
            let bad = find_foreign(&ns, all);
            if ns.len() == 0 || (kind != Lookup::Vectors && ns.len() != 1) {
                Err(err(ErrKind::Parse))
            } else if bad < ns.len() {
                Err(err_on(ErrKind::ColumnNotFound, ns.get(bad).as_str()))
            } else {
                Ok(places(&ns, all))
            }
        },
    }
}

/// The index without records that options describe, over a relation with these
/// columns.
pub open spec fn configured(
    ix: Seq<char>,
    kind: Lookup,
    opts: Seq<FieldV>,
    all: Seq<Seq<char>>,
) -> Result<SearchV, Fault> {
    match fields_option(kind, opts, all) {
        Err(f) => Err(f),
        Ok(fields) => match filters_option(opts) {
            Err(f) => Err(f),
            Ok(filters) => match chars_option(opts) {
                Err(f) => Err(f),
                Ok(chars) => match count_option(opts, "n_gram"@, 1) {
                    Err(f) => Err(f),
                    Ok(gram) => match part_option(opts, "target_threshold"@, 900_000) {
                        Err(f) => Err(f),
                        Ok(target) => match metric_option(opts) {
                            Err(f) => Err(f),
                            Ok(metric) => match count_option(opts, "m"@, 16) {
                                Err(f) => Err(f),
                                Ok(most) => Ok(
                                    SearchV {
                                        name: ix,
                                        kind,
                                        filters,
                                        chars,
                                        gram,
                                        target,
                                        metric,
                                        most,
                                        fields,
                                        filter: given_option(
                                            opts,
                                            if kind == Lookup::Vectors {
                                                "filter"@
                                            } else {
                                                "extract_filter"@
                                            },
                                        ),
                                        recs: Seq::empty(),
                                    },
                                ),
                            },
                        },
                    },
                },
            },
        },
    }
}

/// The index without records that options describe.
pub fn configure(ix: &String, kind: Lookup, opts: &List<Field>, all: &List<String>) -> (r: Result<
    Search,
    DbError,
>)
    ensures
        outcome(r) == configured(ix@, kind, opts@, all@),
{
    match get_fields(kind, opts, all) {
        Err(e) => Err(e),
        Ok(fields) => match get_filters(opts) {
            Err(e) => Err(e),
            Ok(filters) => match get_chars(opts) {
                Err(e) => Err(e),
                Ok(chars) => match get_count(opts, "n_gram", 1) {
                    Err(e) => Err(e),
                    Ok(gram) => match get_part(opts, "target_threshold", 900_000) {
                        Err(e) => Err(e),
                        Ok(target) => match get_metric(opts) {
                            Err(e) => Err(e),
                            Ok(metric) => match get_count(opts, "m", 16) {
                                Err(e) => Err(e),
                                Ok(most) => {
                                    let filter = get_option(
                                        opts,
                                        if kind == Lookup::Vectors {
                                            "filter"
                                        } else {
                                            "extract_filter"
                                        },
                                    );
                                    Ok(
                                        Search {
                                            name: ix.clone(),
                                            kind,
                                            filters,
                                            chars,
                                            gram,
                                            target,
                                            metric,
                                            most,
                                            fields,
                                            filter,
                                            recs: List::new(),
                                        },
                                    )
                                },
                            },
                        },
                    },
                },
            },
        },
    }
}

} // verus!
