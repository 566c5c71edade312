//! Splitting a script into tokens.
use vstd::prelude::*;

use crate::error::{DbError, ErrKind, Fault, err, fault, outcome};
use crate::fts::push_char;
use crate::list::{Dup, List};
use crate::scan::{digit, digit_of};
use crate::value::{chars_of, code};

verus! {

/// A punctuation mark.
#[derive(Clone, Copy, Debug, PartialEq, Eq, Structural)]
pub enum Sym {
    /// `:=`
    Define,
    /// `::`
    Colons,
    /// `<-`
    From,
    /// `<~`
    Fixed,
    /// `=>`
    Gives,
    /// `==`
    Same,
    /// `!=`
    Differs,
    /// `<=`
    AtMost,
    /// `>=`
    AtLeast,
    /// `&&`
    Both,
    /// `||`
    Either,
    /// `(`
    ParenL,
    /// `)`
    ParenR,
    /// `[`
    BrackL,
    /// `]`
    BrackR,
    /// `{`
    BraceL,
    /// `}`
    BraceR,
    /// `,`
    Comma,
    /// `;`
    Semi,
    /// `:`
    Colon,
    /// `<`
    Less,
    /// `>`
    More,
    /// `=`
    Equal,
    /// `@`
    At,
    /// `*`
    Star,
    /// `+`
    Plus,
    /// `-`
    Minus,
    /// `/`
    Slash,
    /// `%`
    Percent,
    /// `?`
    Quest,
    /// `|`
    Bar,
    /// `~`
    Tilde,
    /// `.`
    Dot,
    /// `!`
    Bang,
}

impl View for Sym {
    type V = Sym;

    open spec fn view(&self) -> Sym {
        *self
    }
}

/// A token.
pub enum Tok {
    /// A name or a keyword.
    Word(String),
    Int(i64),
    /// The number that stands, behind a sign, for the least integer.
    Edge,
    /// A number with a fraction, in millionths.
    Real(i128),
    /// A quoted string.
    Text(String),
    /// A parameter.
    Param(String),
    Mark(Sym),
}

/// The mathematical counterpart of [`Tok`].
pub enum TokV {
    Word(Seq<char>),
    Int(i64),
    Edge,
    Real(i128),
    Text(Seq<char>),
    Param(Seq<char>),
    Mark(Sym),
}

impl View for Tok {
    type V = TokV;

    open spec fn view(&self) -> TokV {
        match *self {
            Tok::Word(a) => TokV::Word(a@),
            Tok::Int(a) => TokV::Int(a),
            Tok::Edge => TokV::Edge,
            Tok::Real(a) => TokV::Real(a),
            Tok::Text(a) => TokV::Text(a@),
            Tok::Param(a) => TokV::Param(a@),
            Tok::Mark(a) => TokV::Mark(a),
        }
    }
}

impl Dup for Tok {
    fn dup(&self) -> (r: Self) {
        match self {
            Tok::Word(a) => Tok::Word(a.clone()),
            Tok::Int(a) => Tok::Int(*a),
            Tok::Edge => Tok::Edge,
            Tok::Real(a) => Tok::Real(*a),
            Tok::Text(a) => Tok::Text(a.clone()),
            Tok::Param(a) => Tok::Param(a.clone()),
            Tok::Mark(a) => Tok::Mark(*a),
        }
    }
}

/// The mark that begins with a character before another one, and its length.
pub open spec fn mark_of(c: char, d: char) -> Option<(Sym, int)> {
    if c == ':' && d == '=' {
        Some((Sym::Define, 2))
    }     else if c == ':' && d == ':' {
        Some((Sym::Colons, 2))
    }     else if c == '<' && d == '-' {
        Some((Sym::From, 2))
    }     else if c == '<' && d == '~' {
        Some((Sym::Fixed, 2))
    }     else if c == '=' && d == '>' {
        Some((Sym::Gives, 2))
    }     else if c == '=' && d == '=' {
        Some((Sym::Same, 2))
    }     else if c == '!' && d == '=' {
        Some((Sym::Differs, 2))
    }     else if c == '<' && d == '=' {
        Some((Sym::AtMost, 2))
    }     else if c == '>' && d == '=' {
        Some((Sym::AtLeast, 2))
    }     else if c == '&' && d == '&' {
        Some((Sym::Both, 2))
    }     else if c == '|' && d == '|' {
        Some((Sym::Either, 2))
    } else if c == '(' {
        Some((Sym::ParenL, 1))
    } else if c == ')' {
        Some((Sym::ParenR, 1))
    } else if c == '[' {
        Some((Sym::BrackL, 1))
    } else if c == ']' {
        Some((Sym::BrackR, 1))
    } else if c == '{' {
        Some((Sym::BraceL, 1))
    } else if c == '}' {
        Some((Sym::BraceR, 1))
    } else if c == ',' {
        Some((Sym::Comma, 1))
    } else if c == ';' {
        Some((Sym::Semi, 1))
    } else if c == ':' {
        Some((Sym::Colon, 1))
    } else if c == '<' {
        Some((Sym::Less, 1))
    } else if c == '>' {
        Some((Sym::More, 1))
    } else if c == '=' {
        Some((Sym::Equal, 1))
    } else if c == '@' {
        Some((Sym::At, 1))
    } else if c == '*' {
        Some((Sym::Star, 1))
    } else if c == '+' {
        Some((Sym::Plus, 1))
    } else if c == '-' {
        Some((Sym::Minus, 1))
    } else if c == '/' {
        Some((Sym::Slash, 1))
    } else if c == '%' {
        Some((Sym::Percent, 1))
    } else if c == '?' {
        Some((Sym::Quest, 1))
    } else if c == '|' {
        Some((Sym::Bar, 1))
    } else if c == '~' {
        Some((Sym::Tilde, 1))
    } else if c == '.' {
        Some((Sym::Dot, 1))
    } else if c == '!' {
        Some((Sym::Bang, 1))
    } else {
        None
    }
}

fn mark(c: char, d: char) -> (r: Option<(Sym, usize)>)
    ensures
        match r {
            Some((m, n)) => mark_of(c, d) == Some((m, n as int)) && 1 <= n <= 2 && (n == 2 ==> d
                != ' '),
            None => mark_of(c, d) is None,
        },
{
    if c == ':' && d == '=' {
        Some((Sym::Define, 2))
    }     else if c == ':' && d == ':' {
        Some((Sym::Colons, 2))
    }     else if c == '<' && d == '-' {
        Some((Sym::From, 2))
    }     else if c == '<' && d == '~' {
        Some((Sym::Fixed, 2))
    }     else if c == '=' && d == '>' {
        Some((Sym::Gives, 2))
    }     else if c == '=' && d == '=' {
        Some((Sym::Same, 2))
    }     else if c == '!' && d == '=' {
        Some((Sym::Differs, 2))
    }     else if c == '<' && d == '=' {
        Some((Sym::AtMost, 2))
    }     else if c == '>' && d == '=' {
        Some((Sym::AtLeast, 2))
    }     else if c == '&' && d == '&' {
        Some((Sym::Both, 2))
    }     else if c == '|' && d == '|' {
        Some((Sym::Either, 2))
    } else if c == '(' {
        Some((Sym::ParenL, 1))
    } else if c == ')' {
        Some((Sym::ParenR, 1))
    } else if c == '[' {
        Some((Sym::BrackL, 1))
    } else if c == ']' {
        Some((Sym::BrackR, 1))
    } else if c == '{' {
        Some((Sym::BraceL, 1))
    } else if c == '}' {
        Some((Sym::BraceR, 1))
    } else if c == ',' {
        Some((Sym::Comma, 1))
    } else if c == ';' {
        Some((Sym::Semi, 1))
    } else if c == ':' {
        Some((Sym::Colon, 1))
    } else if c == '<' {
        Some((Sym::Less, 1))
    } else if c == '>' {
        Some((Sym::More, 1))
    } else if c == '=' {
        Some((Sym::Equal, 1))
    } else if c == '@' {
        Some((Sym::At, 1))
    } else if c == '*' {
        Some((Sym::Star, 1))
    } else if c == '+' {
        Some((Sym::Plus, 1))
    } else if c == '-' {
        Some((Sym::Minus, 1))
    } else if c == '/' {
        Some((Sym::Slash, 1))
    } else if c == '%' {
        Some((Sym::Percent, 1))
    } else if c == '?' {
        Some((Sym::Quest, 1))
    } else if c == '|' {
        Some((Sym::Bar, 1))
    } else if c == '~' {
        Some((Sym::Tilde, 1))
    } else if c == '.' {
        Some((Sym::Dot, 1))
    } else if c == '!' {
        Some((Sym::Bang, 1))
    } else {
        None
    }
}

/// Whether a character separates tokens.
pub open spec fn is_blank(c: char) -> bool {
    c == ' ' || c == '\n' || c == '\t' || c == '\r'
}

fn blank(c: char) -> (r: bool)
    ensures
        r == is_blank(c),
{
    c == ' ' || c == '\n' || c == '\t' || c == '\r'
}

/// Whether a character can begin a name.
pub open spec fn is_letter(c: char) -> bool {
    ('a' <= c && c <= 'z') || ('A' <= c && c <= 'Z') || c == '_' || c as u32 >= 128
}

fn letter(c: char) -> (r: bool)
    ensures
        r == is_letter(c),
{
    ('a' <= c && c <= 'z') || ('A' <= c && c <= 'Z') || c == '_' || code(c) >= 128
}

/// Whether a character can go on a name.
pub open spec fn in_word(c: char) -> bool {
    is_letter(c) || digit_of(c) is Some
}

fn word_part(c: char) -> (r: bool)
    ensures
        r == in_word(c),
{
    letter(c) || digit(c).is_some()
}

/// The first place from `i` on that is neither blank nor in a comment.
pub open spec fn skip_from(s: Seq<char>, i: int, comment: bool) -> int
    decreases s.len() - i,
{
    if i < 0 || i >= s.len() {
        s.len() as int
    } else if comment {
        skip_from(s, i + 1, s[i] != '\n')
    } else if s[i] == '#' {
        skip_from(s, i + 1, true)
    } else if is_blank(s[i]) {
        skip_from(s, i + 1, false)
    } else {
        i
    }
}

fn skip(s: &Vec<char>, start: usize) -> (r: usize)
    requires
        start <= s@.len(),
    ensures
        r == skip_from(s@, start as int, false),
        start <= r <= s@.len(),
{
    let mut i: usize = start;
    let mut comment: bool = false;
    while i < s.len()
        invariant
            start <= i <= s@.len(),
            skip_from(s@, start as int, false) == skip_from(s@, i as int, comment),
        decreases s@.len() - i,
    {
        let c: char = s[i];
        if comment {
            comment = c != '\n';
        } else if c == '#' {
            comment = true;
        } else if !blank(c) {
            return i;
        }
        i = i + 1;
    }
    i
}

/// The end of the name that goes on at place `i`.
pub open spec fn word_end(s: Seq<char>, i: int) -> int
    decreases s.len() - i,
{
    if 0 <= i < s.len() && in_word(s[i]) {
        word_end(s, i + 1)
    } else {
        i
    }
}

fn find_word_end(s: &Vec<char>, start: usize) -> (r: usize)
    requires
        start <= s@.len(),
    ensures
        r == word_end(s@, start as int),
        start <= r <= s@.len(),
{
    let mut i: usize = start;
    while i < s.len() && word_part(s[i])
        invariant
            start <= i <= s@.len(),
            word_end(s@, start as int) == word_end(s@, i as int),
        decreases s@.len() - i,
    {
        i = i + 1;
    }
    i
}

/// The characters between two places.
pub fn slice(s: &Vec<char>, i: usize, j: usize) -> (r: String)
    requires
        i <= j <= s@.len(),
    ensures
        r@ == s@.subrange(i as int, j as int),
{
    let mut r = String::new();
    let mut k: usize = i;
    assert(r@ =~= s@.subrange(i as int, i as int));
    while k < j
        invariant
            i <= k <= j <= s@.len(),
            r@ =~= s@.subrange(i as int, k as int),
        decreases j - k,
    {
        push_char(&mut r, s[k]);
        k = k + 1;
    }
    r
}

/// The greatest number that is read: one more than the greatest integer.
pub const EDGE: u64 = 0x8000_0000_0000_0000;

/// The digits from place `i` on, taken into a number: its value and where they
/// end; nothing where the number grows too great.
pub open spec fn digits_from(s: Seq<char>, i: int, acc: int) -> Option<(int, int)>
    decreases s.len() - i,
{
    if 0 <= i < s.len() && digit_of(s[i]) is Some {
        let next = acc * 10 + digit_of(s[i])->0;
        if next > EDGE {
            None
        } else {
            digits_from(s, i + 1, next)
        }
    } else {
        Some((acc, i))
    }
}

fn digits(s: &Vec<char>, start: usize) -> (r: Option<(u64, usize)>)
    requires
        start <= s@.len(),
    ensures
        match r {
            Some((n, j)) => digits_from(s@, start as int, 0) == Some((n as int, j as int)) && start
                <= j <= s@.len() && n <= EDGE,
            None => digits_from(s@, start as int, 0) is None,
        },
{
    let mut acc: u64 = 0;
    let mut i: usize = start;
    while i < s.len()
        invariant
            start <= i <= s@.len(),
            acc <= EDGE,
            digits_from(s@, start as int, 0) == digits_from(s@, i as int, acc as int),
        decreases s@.len() - i,
    {
        match digit(s[i]) {
            Some(d) => {
                let next: u128 = acc as u128 * 10 + d as u128;
                if next > EDGE as u128 {
                    return None;
                }
                acc = next as u64;
            },
            None => {
                return Some((acc, i));
            },
        }
        i = i + 1;
    }
    Some((acc, i))
}

/// The fraction whose digits go on at place `i`, in millionths where the next
/// digit is worth `unit`; and where the digits end.
pub open spec fn fraction_from(s: Seq<char>, i: int, unit: int, acc: int) -> (int, int)
    decreases s.len() - i,
{
    if 0 <= i < s.len() && digit_of(s[i]) is Some {
        fraction_from(s, i + 1, unit / 10, acc + unit * digit_of(s[i])->0)
    } else {
        (acc, i)
    }
}

fn fraction(s: &Vec<char>, start: usize) -> (r: (i64, usize))
    requires
        start <= s@.len(),
    ensures
        (r.0 as int, r.1 as int) == fraction_from(s@, start as int, 100_000, 0),
        start <= r.1 <= s@.len(),
        0 <= r.0 <= 1_000_000,
{
    let mut acc: i64 = 0;
    let mut unit: i64 = 100_000;
    let mut i: usize = start;
    while i < s.len()
        invariant
            start <= i <= s@.len(),
            0 <= unit <= 100_000,
            0 <= acc <= 1_000_000 - 10 * unit,
            fraction_from(s@, start as int, 100_000, 0) == fraction_from(
                s@,
                i as int,
                unit as int,
                acc as int,
            ),
        decreases s@.len() - i,
    {
        match digit(s[i]) {
            Some(d) => {
                let e: i64 = d as i64;
                assert(0 <= unit * e <= 9 * unit) by (nonlinear_arith)
                    requires
                        0 <= e <= 9,
                        0 <= unit,
                ;
                acc = acc + unit * e;
                unit = unit / 10;
            },
            None => {
                return (acc, i);
            },
        }
        i = i + 1;
    }
    (acc, i)
}

/// The number that begins at place `i`, and where it ends.
pub open spec fn number_at(s: Seq<char>, i: int) -> Option<(TokV, int)> {
    match digits_from(s, i, 0) {
        None => None,
        Some((n, j)) => if j + 1 < s.len() && s[j] == '.' && digit_of(s[j + 1]) is Some {
            let (f, k) = fraction_from(s, j + 1, 100_000, 0);
            Some((TokV::Real((n * 1_000_000 + f) as i128), k))
        } else if n == EDGE {
            Some((TokV::Edge, j))
        } else {
            Some((TokV::Int(n as i64), j))
        },
    }
}

/// What a scan of a token gives, by views.
pub open spec fn scanned_tok(r: Option<(Tok, usize)>) -> Option<(TokV, int)> {
    match r {
        Some((t, j)) => Some((t@, j as int)),
        None => None,
    }
}

fn number(s: &Vec<char>, i: usize) -> (r: Option<(Tok, usize)>)
    requires
        i < s@.len(),
    ensures
        scanned_tok(r) == number_at(s@, i as int),
        r matches Some((_, j)) ==> i <= j <= s@.len(),
{
    match digits(s, i) {
        None => None,
        Some((n, j)) => {
            if j < s.len() && s.len() - j > 1 && s[j] == '.' && digit(s[j + 1]).is_some() {
                let (f, k) = fraction(s, j + 1);
                Some((Tok::Real(n as i128 * 1_000_000 + f as i128), k))
            } else if n == EDGE {
                Some((Tok::Edge, j))
            } else {
                Some((Tok::Int(n as i64), j))
            }
        },
    }
}

/// The character that an escaped one stands for.
pub open spec fn unescaped(c: char) -> char {
    if c == 'n' {
        '\n'
    } else if c == 't' {
        '\t'
    } else if c == 'r' {
        '\r'
    } else {
        c
    }
}

fn unescape(c: char) -> (r: char)
    ensures
        r == unescaped(c),
{
    if c == 'n' {
        '\n'
    } else if c == 't' {
        '\t'
    } else if c == 'r' {
        '\r'
    } else {
        c
    }
}

/// The text that goes on at place `i` up to the closing quote, after `acc`, and
/// where it ends.
pub open spec fn text_from(
    s: Seq<char>,
    i: int,
    quote: char,
    acc: Seq<char>,
) -> Option<(Seq<char>, int)>
    decreases s.len() - i,
{
    if i < 0 || i >= s.len() {
        None
    } else if s[i] == quote {
        Some((acc, i + 1))
    } else if s[i] == '\\' {
        if i + 1 >= s.len() {
            None
        } else {
            text_from(s, i + 2, quote, acc.push(unescaped(s[i + 1])))
        }
    } else {
        text_from(s, i + 1, quote, acc.push(s[i]))
    }
}

fn text(s: &Vec<char>, start: usize, quote: char) -> (r: Option<(String, usize)>)
    requires
        start <= s@.len(),
    ensures
        match r {
            Some((t, j)) => text_from(s@, start as int, quote, Seq::empty()) == Some(
                (t@, j as int),
            ) && start <= j <= s@.len(),
            None => text_from(s@, start as int, quote, Seq::empty()) is None,
        },
{
    let mut acc = String::new();
    let mut i: usize = start;
    assert(acc@ =~= Seq::<char>::empty());
    while i < s.len()
        invariant
            start <= i <= s@.len(),
            text_from(s@, start as int, quote, Seq::empty()) == text_from(
                s@,
                i as int,
                quote,
                acc@,
            ),
        decreases s@.len() - i,
    {
        let c: char = s[i];
        if c == quote {
            return Some((acc, i + 1));
        }
        if c == '\\' {
            if s.len() - i <= 1 {
                return None;
            }
            push_char(&mut acc, unescape(s[i + 1]));
            i = i + 2;
        } else {
            push_char(&mut acc, c);
            i = i + 1;
        }
    }
    None
}

/// The token that begins at place `i`, and where it ends.
pub open spec fn token_at(s: Seq<char>, i: int) -> Option<(TokV, int)> {
    let c = s[i];
    if is_letter(c) {
        Some((TokV::Word(s.subrange(i, word_end(s, i))), word_end(s, i)))
    } else if digit_of(c) is Some {
        number_at(s, i)
    } else if c == '$' {
        if word_end(s, i + 1) == i + 1 {
            None
        } else {
            Some((TokV::Param(s.subrange(i + 1, word_end(s, i + 1))), word_end(s, i + 1)))
        }
    } else if c == '\'' || c == '"' {
        match text_from(s, i + 1, c, Seq::empty()) {
            Some((t, j)) => Some((TokV::Text(t), j)),
            None => None,
        }
    } else {
        match mark_of(
            c,
            if i + 1 < s.len() {
                s[i + 1]
            } else {
                ' '
            },
        ) {
            Some((m, n)) => Some((TokV::Mark(m), i + n)),
            None => None,
        }
    }
}

fn token(s: &Vec<char>, i: usize) -> (r: Option<(Tok, usize)>)
    requires
        i < s@.len(),
    ensures
        scanned_tok(r) == token_at(s@, i as int),
        r matches Some((_, j)) ==> j <= s@.len(),
{
    let n: usize = s.len();
    let c: char = s[i];
    if letter(c) {
        let j = find_word_end(s, i);
        Some((Tok::Word(slice(s, i, j)), j))
    } else if digit(c).is_some() {
        number(s, i)
    } else if c == '$' {
        let j = find_word_end(s, i + 1);
        if j == i + 1 {
            None
        } else {
            Some((Tok::Param(slice(s, i + 1, j)), j))
        }
    } else if c == '\'' || c == '"' {
        match text(s, i + 1, c) {
            Some((t, j)) => Some((Tok::Text(t), j)),
            None => None,
        }
    } else {
        let d: char = if n - i > 1 {
            s[i + 1]
        } else {
            ' '
        };
        match mark(c, d) {
            Some((m, k)) => Some((Tok::Mark(m), i + k)),
            None => None,
        }
    }
}

/// The tokens from place `i` on, after `acc`.
pub open spec fn tokens_from(s: Seq<char>, i: int, acc: Seq<TokV>) -> Result<Seq<TokV>, Fault>
    decreases s.len() - i,
{
    let j = skip_from(s, i, false);
    if i < 0 || j < i || j >= s.len() {
        Ok(acc)
    } else {
        match token_at(s, j) {
            None => Err(fault(ErrKind::Lex)),
            Some((t, k)) => if k <= j || k > s.len() {
                Err(fault(ErrKind::Lex))
            } else {
                tokens_from(s, k, acc.push(t))
            },
        }
    }
}

/// The tokens of a script.
pub fn tokens(script: &str) -> (r: Result<List<Tok>, DbError>)
    ensures
        outcome(r) == tokens_from(script@, 0, Seq::empty()),
{
    let s = chars_of(script);
    let mut acc: List<Tok> = List::new();
    let mut i: usize = 0;
    loop
        invariant
            i <= s@.len(),
            s@ == script@,
            tokens_from(script@, 0, Seq::empty()) == tokens_from(script@, i as int, acc@),
        decreases s@.len() - i,
    {
        let j = skip(&s, i);
        if j >= s.len() {
            return Ok(acc);
        }
        match token(&s, j) {
            None => {
                return Err(err(ErrKind::Lex));
            },
            Some((t, k)) => {
                if k <= j {
                    return Err(err(ErrKind::Lex));
                }
                acc.push(t);
                i = k;
            },
        }
    }
}

} // verus!
