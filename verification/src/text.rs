//! Writing values and types as text.
use vstd::prelude::*;

use crate::fixed_point::magnitude;
use crate::fts::push_char;
use crate::list::List;
use crate::schema::ColType;
use crate::value::{DataValue, Tuple, Value, values_of};

verus! {

/// The character of a digit, up to fifteen.
pub open spec fn digit_char(d: int) -> char {
    if d < 10 {
        (48 + d) as u8 as char
    } else {
        (87 + d) as u8 as char
    }
}

fn char_of_digit(d: u8) -> (r: char)
    requires
        d < 16,
    ensures
        r == digit_char(d as int),
{
    if d < 10 {
        (48 + d) as char
    } else {
        (87 + d) as char
    }
}

/// A text behind one character.
pub fn behind(c: char, s: &String) -> (r: String)
    ensures
        r@ == seq![c] + s@,
{
    let mut head = String::new();
    assert(head@ =~= Seq::<char>::empty());
    push_char(&mut head, c);
    assert(head@ =~= seq![c]);
    head.concat(s.as_str())
}

/// The decimal digits of a number, before `acc`.
pub open spec fn decimal_from(n: nat, acc: Seq<char>) -> Seq<char>
    decreases n,
{
    if n < 10 {
        seq![digit_char(n as int)] + acc
    } else {
        decimal_from(n / 10, seq![digit_char((n % 10) as int)] + acc)
    }
}

fn decimal(n: u128) -> (r: String)
    ensures
        r@ == decimal_from(n as nat, Seq::empty()),
{
    let mut left: u128 = n;
    let mut acc = String::new();
    assert(acc@ =~= Seq::<char>::empty());
    while left >= 10
        invariant
            decimal_from(n as nat, Seq::empty()) == decimal_from(left as nat, acc@),
        decreases left,
    {
        acc = behind(char_of_digit((left % 10) as u8), &acc);
        left = left / 10;
    }
    behind(char_of_digit(left as u8), &acc)
}

/// An integer in decimal.
pub open spec fn integer_text(n: int) -> Seq<char> {
    if n < 0 {
        seq!['-'] + decimal_from((-n) as nat, Seq::empty())
    } else {
        decimal_from(n as nat, Seq::empty())
    }
}

/// An integer in decimal.
pub fn show_integer(n: i128) -> (r: String)
    ensures
        r@ == integer_text(n as int),
{
    if n < 0 {
        behind('-', &decimal(magnitude(n)))
    } else {
        decimal(n as u128)
    }
}

/// The last `n` digits of a number to the base sixteen, before `acc`, in groups
/// of eight, four, four, four and twelve.
pub open spec fn hex_from(u: u128, n: nat, acc: Seq<char>) -> Seq<char>
    decreases n,
{
    if n == 0 {
        acc
    } else {
        let next = seq![digit_char((u % 16) as int)] + acc;
        hex_from(
            u / 16,
            (n - 1) as nat,
            if n == 21 || n == 17 || n == 13 || n == 9 {
                seq!['-'] + next
            } else {
                next
            },
        )
    }
}

/// An identifier as text.
pub fn show_uuid(u: u128) -> (r: String)
    ensures
        r@ == hex_from(u, 32, Seq::empty()),
{
    let mut left: u128 = u;
    let mut n: u8 = 32;
    let mut acc = String::new();
    assert(acc@ =~= Seq::<char>::empty());
    while n > 0
        invariant
            n <= 32,
            hex_from(u, 32, Seq::empty()) == hex_from(left, n as nat, acc@),
        decreases n,
    {
        acc = behind(char_of_digit((left % 16) as u8), &acc);
        if n == 21 || n == 17 || n == 13 || n == 9 {
            acc = behind('-', &acc);
        }
        left = left / 16;
        n = n - 1;
    }
    acc
}

/// A value as text.
pub open spec fn text_of(v: Value) -> Seq<char>
    decreases v, 0int,
{
    match v {
        Value::Null => "null"@,
        Value::Bool(b) => if b {
            "true"@
        } else {
            "false"@
        },
        Value::Int(n) => integer_text(n as int),
        Value::Real(m) => integer_text(m as int) + "u"@,
        Value::Str(s) => s,
        Value::Bytes(_) => "bytes"@,
        Value::Uuid(u) => hex_from(u, 32, Seq::empty()),
        Value::List(l) => "["@ + texts_from(l, 0) + "]"@,
        Value::Json(l) => "{"@ + texts_from(l, 0) + "}"@,
        Value::Validity(t, a) => integer_text(t as int),
        Value::Bot => "bot"@,
    }
}

/// Values from place `i` on as text, each followed by a comma.
pub open spec fn texts_from(l: Seq<Value>, i: int) -> Seq<char>
    decreases l, l.len() - i,
{
    if i < 0 || i >= l.len() {
        ""@
    } else {
        text_of(l[i]) + ","@ + texts_from(l, i + 1)
    }
}

/// A value as text.
pub fn show(v: &DataValue) -> (r: String)
    ensures
        r@ == text_of(v@),
    decreases v, 0int,
{
    match v {
        DataValue::Null => "null".to_owned(),
        DataValue::Bool(b) => if *b {
            "true".to_owned()
        } else {
            "false".to_owned()
        },
        DataValue::Int(n) => show_integer(*n as i128),
        DataValue::Real(m) => show_integer(*m).concat("u"),
        DataValue::Str(s) => s.clone(),
        DataValue::Bytes(_) => "bytes".to_owned(),
        DataValue::Uuid(u) => show_uuid(*u),
        DataValue::List(l) => "[".to_owned().concat(show_all(l, 0).as_str()).concat("]"),
        DataValue::Json(l) => "{".to_owned().concat(show_all(l, 0).as_str()).concat("}"),
        DataValue::Validity(t, _) => show_integer(*t as i128),
        DataValue::Bot => "bot".to_owned(),
    }
}

fn show_all(l: &Vec<DataValue>, i: usize) -> (r: String)
    requires
        i <= l@.len(),
    ensures
        r@ == texts_from(values_of(l@), i as int),
    decreases l, l@.len() - i + 1,
{
    if i >= l.len() {
        "".to_owned()
    } else {
        show(&l[i]).concat(",").concat(show_all(l, i + 1).as_str())
    }
}

/// The values of a row as text, each followed by a comma.
pub fn show_row(row: &Tuple) -> (r: String)
    ensures
        r@ == texts_from(row@, 0),
{
    assert(values_of(row.items@) =~= row@);
    show_all(&row.items, 0)
}

/// A type as text.
pub open spec fn type_text(t: ColType) -> Seq<char>
    decreases t,
{
    match t {
        ColType::Any => "Any"@,
        ColType::Bool => "Bool"@,
        ColType::Int => "Int"@,
        ColType::Float => "Float"@,
        ColType::Str => "String"@,
        ColType::Bytes => "Bytes"@,
        ColType::Uuid => "Uuid"@,
        ColType::Json => "Json"@,
        ColType::Validity => "Validity"@,
        ColType::TxTime => "TxTime"@,
        ColType::Nullable(u) => type_text(*u) + "?"@,
        ColType::ListOf(u) => "["@ + type_text(*u) + "]"@,
        ColType::TupleEnd => "()"@,
        ColType::TupleOf(a, b) => "("@ + type_text(*a) + ","@ + type_text(*b) + ")"@,
        ColType::Vector(n) => "<F32;"@ + decimal_from(n as nat, Seq::empty()) + ">"@,
    }
}

/// A type as text.
pub fn show_type(t: &ColType) -> (r: String)
    ensures
        r@ == type_text(*t),
    decreases t,
{
    match t {
        ColType::Any => "Any".to_owned(),
        ColType::Bool => "Bool".to_owned(),
        ColType::Int => "Int".to_owned(),
        ColType::Float => "Float".to_owned(),
        ColType::Str => "String".to_owned(),
        ColType::Bytes => "Bytes".to_owned(),
        ColType::Uuid => "Uuid".to_owned(),
        ColType::Json => "Json".to_owned(),
        ColType::Validity => "Validity".to_owned(),
        ColType::TxTime => "TxTime".to_owned(),
        ColType::Nullable(u) => show_type(u).concat("?"),
        ColType::ListOf(u) => "[".to_owned().concat(show_type(u).as_str()).concat("]"),
        ColType::TupleEnd => "()".to_owned(),
        ColType::TupleOf(a, b) => "(".to_owned().concat(show_type(a).as_str()).concat(",").concat(
            show_type(b).as_str(),
        ).concat(")"),
        ColType::Vector(n) => "<F32;".to_owned().concat(decimal(*n as u128).as_str()).concat(">"),
    }
}

} // verus!
