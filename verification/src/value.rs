//! Values of the database, their mathematical counterparts and their order.
//!
//! Numbers come in two forms: integers, and fixed-point reals that count
//! millionths. Between the two forms the order is numeric.
use vstd::prelude::*;

use crate::list::{Dup, List};

verus! {

/// How many units of a real number make one.
pub const UNIT: i64 = 1_000_000;

/// A value of the database.
#[derive(Debug, PartialEq, Eq)]
pub enum DataValue {
    Null,
    Bool(bool),
    Int(i64),
    /// A fixed-point real, in millionths.
    Real(i128),
    Str(String),
    Bytes(Vec<u8>),
    Uuid(u128),
    List(Vec<DataValue>),
    /// An object, as alternating names and values.
    Json(Vec<DataValue>),
    /// A point on the valid-time axis, in microseconds, and whether the row
    /// asserts (or retracts) its fact from there on.
    Validity(i64, bool),
    /// Greater than every other value.
    Bot,
}

/// The mathematical counterpart of [`DataValue`].
pub enum Value {
    Null,
    Bool(bool),
    Int(i64),
    Real(i128),
    Str(Seq<char>),
    Bytes(Seq<u8>),
    Uuid(u128),
    List(Seq<Value>),
    Json(Seq<Value>),
    Validity(i64, bool),
    Bot,
}

/// A row: one value per column.
pub type Tuple = List<DataValue>;

pub open spec fn value_of(d: DataValue) -> Value
    decreases d,
{
    match d {
        DataValue::Null => Value::Null,
        DataValue::Bool(b) => Value::Bool(b),
        DataValue::Int(n) => Value::Int(n),
        DataValue::Real(n) => Value::Real(n),
        DataValue::Str(s) => Value::Str(s@),
        DataValue::Bytes(b) => Value::Bytes(b@),
        DataValue::Uuid(u) => Value::Uuid(u),
        DataValue::List(v) => Value::List(values_of(v@)),
        DataValue::Json(v) => Value::Json(values_of(v@)),
        DataValue::Validity(t, a) => Value::Validity(t, a),
        DataValue::Bot => Value::Bot,
    }
}

pub open spec fn values_of(s: Seq<DataValue>) -> Seq<Value>
    decreases s,
{
    Seq::new(s.len(), |i: int| if 0 <= i < s.len() { value_of(s[i]) } else { Value::Null })
}

impl View for DataValue {
    type V = Value;

    open spec fn view(&self) -> Value {
        value_of(*self)
    }
}

/// The view of a list of values is the sequence of the values' views.
pub proof fn lemma_values_of(l: List<DataValue>)
    ensures
        values_of(l.items@) == l@,
{
    assert(values_of(l.items@) =~= l@);
}

fn dup_vec(v: &Vec<DataValue>) -> (r: Vec<DataValue>)
    ensures
        values_of(r@) == values_of(v@),
    decreases v,
{
    let mut r: Vec<DataValue> = Vec::new();
    let mut i: usize = 0;
    while i < v.len()
        invariant
            i <= v@.len(),
            values_of(r@) == values_of(v@).take(i as int),
        decreases v@.len() - i,
    {
        let x = v[i].dup();
        let ghost before = r@;
        r.push(x);
        assert(values_of(r@) =~= values_of(before).push(x@));
        assert(values_of(v@).take(i + 1) =~= values_of(v@).take(i as int).push(
            values_of(v@)[i as int],
        ));
        i = i + 1;
    }
    assert(values_of(v@).take(i as int) =~= values_of(v@));
    r
}

impl Dup for DataValue {
    fn dup(&self) -> (r: Self)
        decreases self,
    {
        match self {
            DataValue::Null => DataValue::Null,
            DataValue::Bool(b) => DataValue::Bool(*b),
            DataValue::Int(n) => DataValue::Int(*n),
            DataValue::Real(n) => DataValue::Real(*n),
            DataValue::Str(s) => DataValue::Str(s.clone()),
            DataValue::Bytes(b) => DataValue::Bytes(b.clone()),
            DataValue::Uuid(u) => DataValue::Uuid(*u),
            DataValue::List(v) => DataValue::List(dup_vec(v)),
            DataValue::Json(v) => DataValue::Json(dup_vec(v)),
            DataValue::Validity(t, a) => DataValue::Validity(*t, *a),
            DataValue::Bot => DataValue::Bot,
        }
    }
}

impl Clone for DataValue {
    fn clone(&self) -> (r: Self)
        ensures
            r@ == self@,
    {
        self.dup()
    }
}

/// Makes a list value of the values of `l`.
pub fn list_value(l: Tuple) -> (r: DataValue)
    ensures
        r@ == Value::List(l@),
{
    proof {
        lemma_values_of(l);
    }
    DataValue::List(l.items)
}

/// Makes an object of alternating names and values.
pub fn json_value(l: Tuple) -> (r: DataValue)
    ensures
        r@ == Value::Json(l@),
{
    proof {
        lemma_values_of(l);
    }
    DataValue::Json(l.items)
}

/// A copy of the elements of a list value.
pub fn elements(v: &Vec<DataValue>) -> (r: Tuple)
    ensures
        r@ == values_of(v@),
{
    let r = List { items: dup_vec(v) };
    proof {
        lemma_values_of(r);
    }
    r
}

impl DataValue {
    /// A string value.
    pub fn text(s: &str) -> (r: DataValue)
        ensures
            r@ == Value::Str(s@),
    {
        DataValue::Str(s.to_owned())
    }
}

impl From<i64> for DataValue {
    fn from(n: i64) -> (r: Self) {
        DataValue::Int(n)
    }
}

impl vstd::std_specs::convert::FromSpecImpl<i64> for DataValue {
    open spec fn obeys_from_spec() -> bool {
        true
    }

    open spec fn from_spec(n: i64) -> Self {
        DataValue::Int(n)
    }
}

impl From<bool> for DataValue {
    fn from(b: bool) -> (r: Self) {
        DataValue::Bool(b)
    }
}

impl vstd::std_specs::convert::FromSpecImpl<bool> for DataValue {
    open spec fn obeys_from_spec() -> bool {
        true
    }

    open spec fn from_spec(b: bool) -> Self {
        DataValue::Bool(b)
    }
}

impl From<&str> for DataValue {
    fn from(s: &str) -> (r: Self)
        ensures
            r@ == Value::Str(s@),
    {
        DataValue::text(s)
    }
}

impl vstd::std_specs::convert::FromSpecImpl<&str> for DataValue {
    open spec fn obeys_from_spec() -> bool {
        false
    }

    open spec fn from_spec(s: &str) -> Self {
        DataValue::Null
    }
}

/// The outcome of comparing two things.
#[derive(Clone, Copy, Debug, PartialEq, Eq, Structural)]
pub enum Sign {
    Less,
    Same,
    More,
}

pub open spec fn sign_of(a: int, b: int) -> Sign {
    if a < b {
        Sign::Less
    } else if a == b {
        Sign::Same
    } else {
        Sign::More
    }
}

/// The class of a value: classes are ordered before values are.
pub open spec fn class_of(v: Value) -> int {
    match v {
        Value::Null => 0,
        Value::Bool(_) => 1,
        Value::Int(_) => 2,
        Value::Real(_) => 2,
        Value::Str(_) => 3,
        Value::Bytes(_) => 4,
        Value::Uuid(_) => 5,
        Value::List(_) => 6,
        Value::Json(_) => 7,
        Value::Validity(_, _) => 8,
        Value::Bot => 9,
    }
}

/// A number in millionths, and zero for what is no number.
pub open spec fn micros_of(v: Value) -> int {
    match v {
        Value::Int(n) => n * UNIT,
        Value::Real(m) => m as int,
        _ => 0,
    }
}

/// Where numbers are numerically equal, an integer comes before a real.
pub open spec fn form_of(v: Value) -> int {
    if v is Real {
        1
    } else {
        0
    }
}

pub open spec fn order_chars(s: Seq<char>, t: Seq<char>, i: int) -> Sign
    decreases s.len() - i,
{
    if i < 0 || i >= s.len() || i >= t.len() {
        sign_of(s.len() as int, t.len() as int)
    } else if s[i] == t[i] {
        order_chars(s, t, i + 1)
    } else {
        sign_of(s[i] as int, t[i] as int)
    }
}

pub open spec fn order_bytes(s: Seq<u8>, t: Seq<u8>, i: int) -> Sign
    decreases s.len() - i,
{
    if i < 0 || i >= s.len() || i >= t.len() {
        sign_of(s.len() as int, t.len() as int)
    } else if s[i] == t[i] {
        order_bytes(s, t, i + 1)
    } else {
        sign_of(s[i] as int, t[i] as int)
    }
}

/// The order of values. Validities run from the latest to the earliest, and at
/// one instant the assertion comes before the retraction.
pub open spec fn order(a: Value, b: Value) -> Sign
    decreases a, 0int,
{
    if class_of(a) != class_of(b) {
        sign_of(class_of(a), class_of(b))
    } else {
        match (a, b) {
            (Value::Bool(x), Value::Bool(y)) => sign_of(
                if x { 1 } else { 0 },
                if y { 1 } else { 0 },
            ),
            (Value::Str(x), Value::Str(y)) => order_chars(x, y, 0),
            (Value::Bytes(x), Value::Bytes(y)) => order_bytes(x, y, 0),
            (Value::Uuid(x), Value::Uuid(y)) => sign_of(x as int, y as int),
            (Value::List(x), Value::List(y)) => order_rows(x, y, 0),
            (Value::Json(x), Value::Json(y)) => order_rows(x, y, 0),
            (Value::Validity(t, p), Value::Validity(u, q)) => if t != u {
                sign_of(u as int, t as int)
            } else {
                sign_of(if p { 0 } else { 1 }, if q { 0 } else { 1 })
            },
            _ => if micros_of(a) != micros_of(b) {
                sign_of(micros_of(a), micros_of(b))
            } else {
                sign_of(form_of(a), form_of(b))
            },
        }
    }
}

/// The lexicographic order of rows, from column `i` on.
pub open spec fn order_rows(s: Seq<Value>, t: Seq<Value>, i: int) -> Sign
    decreases s, s.len() - i,
{
    if i < 0 || i >= s.len() || i >= t.len() {
        sign_of(s.len() as int, t.len() as int)
    } else {
        match order(s[i], t[i]) {
            Sign::Same => order_rows(s, t, i + 1),
            other => other,
        }
    }
}

fn compare_ints(a: i128, b: i128) -> (r: Sign)
    ensures
        r == sign_of(a as int, b as int),
{
    if a < b {
        Sign::Less
    } else if a == b {
        Sign::Same
    } else {
        Sign::More
    }
}

/// The code point of a character.
pub fn code(c: char) -> (r: i128)
    ensures
        r == c as int,
{
    c as u32 as i128
}

/// The characters of a string.
pub fn chars_of(s: &str) -> (r: Vec<char>)
    ensures
        r@ == s@,
{
    let mut r: Vec<char> = Vec::new();
    for c in it: s.chars()
        invariant
            r@ == it.seq().take(it.index() as int),
            it.seq() == s@,
    {
        let ghost before = r@;
        r.push(c);
        assert(r@ =~= it.seq().take(it.index() + 1));
    }
    assert(r@ =~= s@);
    r
}

pub fn compare_strings(a: &str, b: &str) -> (r: Sign)
    ensures
        r == order_chars(a@, b@, 0),
{
    let s = chars_of(a);
    let t = chars_of(b);
    let mut i: usize = 0;
    while i < s.len() && i < t.len()
        invariant
            i <= s@.len(),
            i <= t@.len(),
            s@ == a@,
            t@ == b@,
            order_chars(s@, t@, 0) == order_chars(s@, t@, i as int),
        decreases s@.len() - i,
    {
        let p: char = s[i];
        let q: char = t[i];
        if p != q {
            return compare_ints(code(p), code(q));
        }
        i = i + 1;
    }
    compare_ints(s.len() as i128, t.len() as i128)
}

pub fn compare_bytes(s: &Vec<u8>, t: &Vec<u8>) -> (r: Sign)
    ensures
        r == order_bytes(s@, t@, 0),
{
    let mut i: usize = 0;
    while i < s.len() && i < t.len()
        invariant
            i <= s@.len(),
            i <= t@.len(),
            order_bytes(s@, t@, 0) == order_bytes(s@, t@, i as int),
        decreases s@.len() - i,
    {
        if s[i] != t[i] {
            return compare_ints(s[i] as i128, t[i] as i128);
        }
        i = i + 1;
    }
    compare_ints(s.len() as i128, t.len() as i128)
}

fn class(v: &DataValue) -> (r: i128)
    ensures
        r == class_of(v@),
{
    match v {
        DataValue::Null => 0,
        DataValue::Bool(_) => 1,
        DataValue::Int(_) => 2,
        DataValue::Real(_) => 2,
        DataValue::Str(_) => 3,
        DataValue::Bytes(_) => 4,
        DataValue::Uuid(_) => 5,
        DataValue::List(_) => 6,
        DataValue::Json(_) => 7,
        DataValue::Validity(_, _) => 8,
        DataValue::Bot => 9,
    }
}

/// A number in millionths, and zero for what is no number.
pub fn micros(v: &DataValue) -> (r: i128)
    ensures
        r == micros_of(v@),
{
    match v {
        DataValue::Int(n) => *n as i128 * UNIT as i128,
        DataValue::Real(m) => *m,
        _ => 0,
    }
}

fn form(v: &DataValue) -> (r: i128)
    ensures
        r == form_of(v@),
{
    match v {
        DataValue::Real(_) => 1,
        _ => 0,
    }
}

/// Compares two values.
pub fn compare(a: &DataValue, b: &DataValue) -> (r: Sign)
    ensures
        r == order(a@, b@),
    decreases a, 0int,
{
    let x = class(a);
    let y = class(b);
    if x != y {
        return compare_ints(x, y);
    }
    match (a, b) {
        (DataValue::Bool(p), DataValue::Bool(q)) => compare_ints(
            if *p { 1 } else { 0 },
            if *q { 1 } else { 0 },
        ),
        (DataValue::Str(p), DataValue::Str(q)) => compare_strings(p.as_str(), q.as_str()),
        (DataValue::Bytes(p), DataValue::Bytes(q)) => compare_bytes(p, q),
        (DataValue::Uuid(p), DataValue::Uuid(q)) => if *p < *q {
            Sign::Less
        } else if *p == *q {
            Sign::Same
        } else {
            Sign::More
        },
        (DataValue::List(p), DataValue::List(q)) => compare_from(p, q, 0),
        (DataValue::Json(p), DataValue::Json(q)) => compare_from(p, q, 0),
        (DataValue::Validity(t, p), DataValue::Validity(u, q)) => if *t != *u {
            compare_ints(*u as i128, *t as i128)
        } else {
            compare_ints(if *p { 0 } else { 1 }, if *q { 0 } else { 1 })
        },
        _ => {
            let m = micros(a);
            let n = micros(b);
            if m != n {
                compare_ints(m, n)
            } else {
                compare_ints(form(a), form(b))
            }
        },
    }
}

fn compare_from(s: &Vec<DataValue>, t: &Vec<DataValue>, i: usize) -> (r: Sign)
    requires
        i <= s@.len(),
    ensures
        r == order_rows(values_of(s@), values_of(t@), i as int),
    decreases s, s@.len() - i,
{
    if i >= s.len() || i >= t.len() {
        compare_ints(s.len() as i128, t.len() as i128)
    } else {
        match compare(&s[i], &t[i]) {
            Sign::Same => compare_from(s, t, i + 1),
            other => other,
        }
    }
}

/// Compares two rows.
pub fn compare_rows(a: &Tuple, b: &Tuple) -> (r: Sign)
    ensures
        r == order_rows(a@, b@, 0),
{
    proof {
        lemma_values_of(*a);
        lemma_values_of(*b);
    }
    compare_from(&a.items, &b.items, 0)
}

proof fn lemma_chars_same(s: Seq<char>, t: Seq<char>, i: int)
    requires
        0 <= i <= s.len(),
        i <= t.len(),
        forall|k: int| 0 <= k < i ==> s[k] == t[k],
    ensures
        order_chars(s, t, i) == Sign::Same <==> s == t,
    decreases s.len() - i,
{
    if i < s.len() && i < t.len() {
        if s[i] == t[i] {
            lemma_chars_same(s, t, i + 1);
        }
    } else if s.len() == t.len() {
        assert(s =~= t);
    }
}

proof fn lemma_bytes_same(s: Seq<u8>, t: Seq<u8>, i: int)
    requires
        0 <= i <= s.len(),
        i <= t.len(),
        forall|k: int| 0 <= k < i ==> s[k] == t[k],
    ensures
        order_bytes(s, t, i) == Sign::Same <==> s == t,
    decreases s.len() - i,
{
    if i < s.len() && i < t.len() {
        if s[i] == t[i] {
            lemma_bytes_same(s, t, i + 1);
        }
    } else if s.len() == t.len() {
        assert(s =~= t);
    }
}

/// Two values compare as the same exactly when they are the same.
pub proof fn lemma_order_same(a: Value, b: Value)
    ensures
        order(a, b) == Sign::Same <==> a == b,
    decreases a, 0int,
{
    if class_of(a) == class_of(b) {
        match (a, b) {
            (Value::Str(x), Value::Str(y)) => lemma_chars_same(x, y, 0),
            (Value::Bytes(x), Value::Bytes(y)) => lemma_bytes_same(x, y, 0),
            (Value::List(x), Value::List(y)) => lemma_rows_same_from(x, y, 0),
            (Value::Json(x), Value::Json(y)) => lemma_rows_same_from(x, y, 0),
            _ => {},
        }
    }
}

proof fn lemma_rows_same_from(s: Seq<Value>, t: Seq<Value>, i: int)
    requires
        0 <= i <= s.len(),
        i <= t.len(),
        forall|k: int| 0 <= k < i ==> s[k] == t[k],
    ensures
        order_rows(s, t, i) == Sign::Same <==> s == t,
    decreases s, s.len() - i,
{
    if i < s.len() && i < t.len() {
        lemma_order_same(s[i], t[i]);
        if s[i] == t[i] {
            lemma_rows_same_from(s, t, i + 1);
        }
    } else if s.len() == t.len() {
        assert(s =~= t);
    }
}

/// Two rows compare as the same exactly when they are the same.
pub proof fn lemma_rows_same(s: Seq<Value>, t: Seq<Value>)
    ensures
        order_rows(s, t, 0) == Sign::Same <==> s == t,
{
    lemma_rows_same_from(s, t, 0);
}

/// Whether two values are the same.
pub fn same(a: &DataValue, b: &DataValue) -> (r: bool)
    ensures
        r == (a@ == b@),
{
    proof {
        lemma_order_same(a@, b@);
    }
    compare(a, b) == Sign::Same
}

/// Whether two rows are the same.
pub fn same_row(a: &Tuple, b: &Tuple) -> (r: bool)
    ensures
        r == (a@ == b@),
{
    proof {
        lemma_rows_same(a@, b@);
    }
    compare_rows(a, b) == Sign::Same
}

pub open spec fn flip(s: Sign) -> Sign {
    match s {
        Sign::Less => Sign::More,
        Sign::Same => Sign::Same,
        Sign::More => Sign::Less,
    }
}

proof fn lemma_chars_flip(s: Seq<char>, t: Seq<char>, i: int)
    requires
        0 <= i,
    ensures
        order_chars(t, s, i) == flip(order_chars(s, t, i)),
    decreases s.len() - i,
{
    if i < s.len() && i < t.len() {
        lemma_chars_flip(s, t, i + 1);
    }
}

proof fn lemma_bytes_flip(s: Seq<u8>, t: Seq<u8>, i: int)
    requires
        0 <= i,
    ensures
        order_bytes(t, s, i) == flip(order_bytes(s, t, i)),
    decreases s.len() - i,
{
    if i < s.len() && i < t.len() {
        lemma_bytes_flip(s, t, i + 1);
    }
}

/// Exchanging two values exchanges less and more.
pub proof fn law_order_flips(a: Value, b: Value)
    ensures
        order(b, a) == flip(order(a, b)),
    decreases a, 0int,
{
    if class_of(a) == class_of(b) {
        match (a, b) {
            (Value::Str(x), Value::Str(y)) => lemma_chars_flip(x, y, 0),
            (Value::Bytes(x), Value::Bytes(y)) => lemma_bytes_flip(x, y, 0),
            (Value::List(x), Value::List(y)) => law_rows_flip(x, y, 0),
            (Value::Json(x), Value::Json(y)) => law_rows_flip(x, y, 0),
            _ => {},
        }
    }
}

/// Exchanging two rows exchanges less and more.
pub proof fn law_rows_flip(s: Seq<Value>, t: Seq<Value>, i: int)
    requires
        0 <= i,
    ensures
        order_rows(t, s, i) == flip(order_rows(s, t, i)),
    decreases s, s.len() - i,
{
    if i < s.len() && i < t.len() {
        law_order_flips(s[i], t[i]);
        law_rows_flip(s, t, i + 1);
    }
}

proof fn lemma_chars_chain(s: Seq<char>, t: Seq<char>, u: Seq<char>, i: int)
    requires
        0 <= i,
        order_chars(s, t, i) == Sign::Less,
        order_chars(t, u, i) == Sign::Less,
    ensures
        order_chars(s, u, i) == Sign::Less,
    decreases s.len() - i,
{
    if i < s.len() && i < t.len() && i < u.len() && s[i] == t[i] && t[i] == u[i] {
        lemma_chars_chain(s, t, u, i + 1);
    }
}

proof fn lemma_bytes_chain(s: Seq<u8>, t: Seq<u8>, u: Seq<u8>, i: int)
    requires
        0 <= i,
        order_bytes(s, t, i) == Sign::Less,
        order_bytes(t, u, i) == Sign::Less,
    ensures
        order_bytes(s, u, i) == Sign::Less,
    decreases s.len() - i,
{
    if i < s.len() && i < t.len() && i < u.len() && s[i] == t[i] && t[i] == u[i] {
        lemma_bytes_chain(s, t, u, i + 1);
    }
}

/// The order of values is transitive.
pub proof fn law_order_chains(a: Value, b: Value, c: Value)
    requires
        order(a, b) == Sign::Less,
        order(b, c) == Sign::Less,
    ensures
        order(a, c) == Sign::Less,
    decreases a, 0int,
{
    if class_of(a) == class_of(b) && class_of(b) == class_of(c) {
        match (a, b, c) {
            (Value::Str(x), Value::Str(y), Value::Str(z)) => lemma_chars_chain(x, y, z, 0),
            (Value::Bytes(x), Value::Bytes(y), Value::Bytes(z)) => lemma_bytes_chain(x, y, z, 0),
            (Value::List(x), Value::List(y), Value::List(z)) => law_rows_chain(x, y, z, 0),
            (Value::Json(x), Value::Json(y), Value::Json(z)) => law_rows_chain(x, y, z, 0),
            _ => {},
        }
    }
}

/// The order of rows is transitive.
pub proof fn law_rows_chain(s: Seq<Value>, t: Seq<Value>, u: Seq<Value>, i: int)
    requires
        0 <= i,
        order_rows(s, t, i) == Sign::Less,
        order_rows(t, u, i) == Sign::Less,
    ensures
        order_rows(s, u, i) == Sign::Less,
    decreases s, s.len() - i,
{
    if i < s.len() && i < t.len() && i < u.len() {
        lemma_order_same(s[i], t[i]);
        lemma_order_same(t[i], u[i]);
        if s[i] == t[i] && t[i] == u[i] {
            law_rows_chain(s, t, u, i + 1);
        } else if s[i] != t[i] && t[i] != u[i] {
            law_order_chains(s[i], t[i], u[i]);
        }
    }
}

} // verus!
