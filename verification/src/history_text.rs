//! What the scripts of the history say, word by word, and those that ask for it.
use vstd::prelude::*;

use crate::error::Fault;
use crate::fixtures::history_script;
use crate::lex::{
    EDGE, Sym, TokV, digits_from, in_word, is_blank, is_letter, mark_of, number_at, skip_from,
    token_at, tokens_from, word_end,
};
use crate::scan::digit_of;
use crate::text::{decimal_from, digit_char, integer_text};

verus! {

/// The tokens of the script that makes the relation.
pub open spec fn create_tokens() -> Seq<TokV> {
    seq![
        TokV::Mark(Sym::Colon),
        TokV::Word("create"@),
        TokV::Word("hist"@),
        TokV::Mark(Sym::BraceL),
        TokV::Word("k"@),
        TokV::Mark(Sym::Comma),
        TokV::Word("v"@),
        TokV::Mark(Sym::Colon),
        TokV::Word("Validity"@),
        TokV::Mark(Sym::Comma),
        TokV::Word("tt"@),
        TokV::Mark(Sym::Colon),
        TokV::Word("TxTime"@),
        TokV::Mark(Sym::Gives),
        TokV::Word("x"@),
        TokV::Mark(Sym::Colon),
        TokV::Word("Int"@),
        TokV::Mark(Sym::BraceR),
    ]
}

/// The tokens of a script that writes one row of the history.
pub open spec fn put_tokens(vt: i64, flag: Seq<char>, x: i64) -> Seq<TokV> {
    seq![
        TokV::Mark(Sym::Quest),
        TokV::Mark(Sym::BrackL),
        TokV::Word("k"@),
        TokV::Mark(Sym::Comma),
        TokV::Word("v"@),
        TokV::Mark(Sym::Comma),
        TokV::Word("x"@),
        TokV::Mark(Sym::BrackR),
        TokV::Mark(Sym::From),
        TokV::Mark(Sym::BrackL),
        TokV::Mark(Sym::BrackL),
        TokV::Int(1),
        TokV::Mark(Sym::Comma),
        TokV::Mark(Sym::BrackL),
        TokV::Int(vt),
        TokV::Mark(Sym::Comma),
        TokV::Word(flag),
        TokV::Mark(Sym::BrackR),
        TokV::Mark(Sym::Comma),
        TokV::Int(x),
        TokV::Mark(Sym::BrackR),
        TokV::Mark(Sym::BrackR),
        TokV::Mark(Sym::Colon),
        TokV::Word("put"@),
        TokV::Word("hist"@),
        TokV::Mark(Sym::BraceL),
        TokV::Word("k"@),
        TokV::Mark(Sym::Comma),
        TokV::Word("v"@),
        TokV::Mark(Sym::Gives),
        TokV::Word("x"@),
        TokV::Mark(Sym::BraceR),
    ]
}

/// The tokens of a script that asks what the fact is, where the instant is that
/// many from the start.
pub open spec fn read_tokens(vt: i64, tt: i64) -> Seq<TokV> {
    seq![
        TokV::Mark(Sym::Quest),
        TokV::Mark(Sym::BrackL),
        TokV::Word("x"@),
        TokV::Mark(Sym::BrackR),
        TokV::Mark(Sym::Define),
        TokV::Mark(Sym::Star),
        TokV::Word("hist"@),
        TokV::Mark(Sym::BrackL),
        TokV::Word("k"@),
        TokV::Mark(Sym::Comma),
        TokV::Word("v"@),
        TokV::Mark(Sym::Comma),
        TokV::Word("t"@),
        TokV::Mark(Sym::Comma),
        TokV::Word("x"@),
        TokV::Mark(Sym::At),
        TokV::Mark(Sym::ParenL),
        TokV::Word("vt"@),
        TokV::Mark(Sym::Colon),
        TokV::Int(vt),
        TokV::Mark(Sym::Comma),
        TokV::Word("tt"@),
        TokV::Mark(Sym::Colon),
        TokV::Int(tt),
        TokV::Mark(Sym::ParenR),
        TokV::Mark(Sym::BrackR),
    ]
}

/// The token of a number.
pub open spec fn number_token(n: int) -> TokV {
    if n == EDGE {
        TokV::Edge
    } else {
        TokV::Int(n as i64)
    }
}

/// The tokens of such a script where the instant is that many before the start.
pub open spec fn early_tokens(vt: int, tt: i64) -> Seq<TokV> {
    seq![
        TokV::Mark(Sym::Quest),
        TokV::Mark(Sym::BrackL),
        TokV::Word("x"@),
        TokV::Mark(Sym::BrackR),
        TokV::Mark(Sym::Define),
        TokV::Mark(Sym::Star),
        TokV::Word("hist"@),
        TokV::Mark(Sym::BrackL),
        TokV::Word("k"@),
        TokV::Mark(Sym::Comma),
        TokV::Word("v"@),
        TokV::Mark(Sym::Comma),
        TokV::Word("t"@),
        TokV::Mark(Sym::Comma),
        TokV::Word("x"@),
        TokV::Mark(Sym::At),
        TokV::Mark(Sym::ParenL),
        TokV::Word("vt"@),
        TokV::Mark(Sym::Colon),
        TokV::Mark(Sym::Minus),
        number_token(vt),
        TokV::Mark(Sym::Comma),
        TokV::Word("tt"@),
        TokV::Mark(Sym::Colon),
        TokV::Int(tt),
        TokV::Mark(Sym::ParenR),
        TokV::Mark(Sym::BrackR),
    ]
}

/// The digits of a number.
pub open spec fn numeral(n: int) -> Seq<char> {
    decimal_from(n as nat, Seq::empty())
}

/// A script that writes one row of the history.
spec fn put_text(vt: i64, flag: Seq<char>, x: i64) -> Seq<char> {
    "?[k, v, x] <- [[1, ["@ + numeral(vt as int) + ", "@ + flag + "], "@ + numeral(x as int)
        + "]] :put hist {k, v => x}"@
}

/// A script that asks what the fact is at an instant, as of a write.
pub open spec fn read_text(vt: i64, tt: i64) -> Seq<char> {
    "?[x] := *hist[k, v, t, x @ (vt: "@ + integer_text(vt as int) + ", tt: "@
        + integer_text(tt as int) + ")]"@
}

/// Whether a text stands at a place.
spec fn standing(s: Seq<char>, o: int, w: Seq<char>) -> bool {
    forall|k: int| 0 <= k < w.len() ==> s[o + k] == #[trigger] w[k]
}

/// Whether at most one blank stands between two places, and none before a token.
spec fn led(s: Seq<char>, i: int, j: int) -> bool {
    &&& 0 <= i <= j <= i + 1
    &&& j < s.len()
    &&& (i < j ==> is_blank(s[i]))
    &&& !is_blank(s[j])
    &&& s[j] != '#'
}

proof fn lemma_next(s: Seq<char>, i: int, j: int, k: int, t: Seq<TokV>, n: int)
    requires
        led(s, i, j),
        j < k <= s.len(),
        0 <= n < t.len(),
        token_at(s, j) == Some((t[n], k)),
    ensures
        tokens_from(s, i, t.take(n)) == tokens_from(s, k, t.take(n + 1)),
{
    reveal_with_fuel(skip_from, 3);
    assert(t.take(n + 1) =~= t.take(n).push(t[n]));
}

proof fn lemma_word_end(s: Seq<char>, i: int, k: int)
    requires
        0 <= i <= k <= s.len(),
        forall|m: int| i <= m < k ==> in_word(#[trigger] s[m]),
        k < s.len() ==> !in_word(s[k]),
    ensures
        word_end(s, i) == k,
    decreases k - i,
{
    if i < k {
        lemma_word_end(s, i + 1, k);
    }
}

proof fn lemma_word(
    s: Seq<char>,
    i: int,
    j: int,
    k: int,
    t: Seq<TokV>,
    n: int,
    w: Seq<char>,
)
    requires
        led(s, i, j),
        j < k <= s.len(),
        0 <= n < t.len(),
        t[n] == TokV::Word(w),
        k == j + w.len(),
        is_letter(w[0]),
        forall|m: int| 0 <= m < w.len() ==> in_word(#[trigger] w[m]) && s[j + m] == w[m],
        k < s.len() ==> !in_word(s[k]),
    ensures
        tokens_from(s, i, t.take(n)) == tokens_from(s, k, t.take(n + 1)),
{
    assert(s.subrange(j, k) =~= w);
    assert forall|m: int| j <= m < k implies in_word(#[trigger] s[m]) by {
        assert(in_word(w[m - j]));
        assert(s[j + (m - j)] == w[m - j]);
    }
    assert(s[j + 0] == w[0]);
    lemma_word_end(s, j, k);
    lemma_next(s, i, j, k, t, n);
}

proof fn lemma_mark(s: Seq<char>, i: int, j: int, k: int, t: Seq<TokV>, n: int, m: Sym)
    requires
        led(s, i, j),
        j < k <= s.len(),
        0 <= n < t.len(),
        t[n] == TokV::Mark(m),
        !in_word(s[j]),
        s[j] != '$',
        s[j] != '\'',
        s[j] != '"',
        mark_of(
            s[j],
            if j + 1 < s.len() {
                s[j + 1]
            } else {
                ' '
            },
        ) == Some((m, k - j)),
    ensures
        tokens_from(s, i, t.take(n)) == tokens_from(s, k, t.take(n + 1)),
{
    lemma_next(s, i, j, k, t, n);
}

proof fn lemma_number(s: Seq<char>, i: int, j: int, k: int, t: Seq<TokV>, n: int, v: i64)
    requires
        led(s, i, j),
        j < k <= s.len(),
        0 <= n < t.len(),
        t[n] == TokV::Int(v),
        !is_letter(s[j]),
        digit_of(s[j]) is Some,
        digits_from(s, j, 0) == Some((v as int, k)),
        k < s.len() ==> s[k] != '.',
    ensures
        tokens_from(s, i, t.take(n)) == tokens_from(s, k, t.take(n + 1)),
{
    assert(number_at(s, j) == Some((TokV::Int(v), k)));
    lemma_next(s, i, j, k, t, n);
}

proof fn lemma_decimal(n: nat, acc: Seq<char>)
    ensures
        decimal_from(n, acc) == decimal_from(n, Seq::empty()) + acc,
    decreases n,
{
    let none = Seq::<char>::empty();
    let d = seq![digit_char((n % 10) as int)];
    if n < 10 {
        assert(seq![digit_char(n as int)] + none + acc =~= seq![digit_char(n as int)] + acc);
    } else {
        lemma_decimal(n / 10, d + acc);
        lemma_decimal(n / 10, d + none);
        assert(numeral((n / 10) as int) + (d + acc) =~= numeral((n / 10) as int) + (d + none)
            + acc);
    }
}

proof fn lemma_digit(d: int)
    requires
        0 <= d < 10,
    ensures
        digit_of(digit_char(d)) == Some(d),
        !is_letter(digit_char(d)),
        !is_blank(digit_char(d)),
        digit_char(d) != '#',
{
}

/// A numeral is read digit by digit.
proof fn lemma_numeral(s: Seq<char>, o: int, n: int)
    requires
        0 <= o,
        0 <= n <= EDGE,
        standing(s, o, numeral(n)),
        o + numeral(n).len() <= s.len(),
    ensures
        digits_from(s, o, 0) == digits_from(s, o + numeral(n).len(), n),
        numeral(n).len() > 0,
        digit_of(numeral(n)[0]) is Some,
        !is_letter(numeral(n)[0]),
        !is_blank(numeral(n)[0]),
        numeral(n)[0] != '#',
    decreases n,
{
    let w = numeral(n);
    let none = Seq::<char>::empty();
    if n < 10 {
        assert(w =~= seq![digit_char(n)]);
        lemma_digit(n);
        assert(s[o + 0] == w[0]);
    } else {
        let m = n / 10;
        let d = digit_char(n % 10);
        let u = numeral(m);
        lemma_decimal(m as nat, seq![d] + none);
        assert(w =~= u.push(d));
        lemma_digit(n % 10);
        assert forall|k: int| 0 <= k < u.len() implies s[o + k] == #[trigger] u[k] by {
            assert(w[k] == u[k]);
        }
        lemma_numeral(s, o, m);
        assert(w[u.len() as int] == d);
        assert(s[o + u.len()] == d);
        assert(w[0] == u[0]);
    }
}

/// A numeral between other texts is one token.
proof fn lemma_count(s: Seq<char>, i: int, j: int, t: Seq<TokV>, n: int, v: int)
    requires
        0 <= v <= EDGE,
        0 <= i <= j <= i + 1,
        i < j ==> is_blank(s[i]),
        standing(s, j, numeral(v)),
        j + numeral(v).len() < s.len(),
        digit_of(s[j + numeral(v).len()]) is None,
        s[j + numeral(v).len()] != '.',
        0 <= n < t.len(),
        t[n] == number_token(v),
    ensures
        tokens_from(s, i, t.take(n)) == tokens_from(s, j + numeral(v).len(), t.take(n + 1)),
{
    lemma_numeral(s, j, v);
    let w = numeral(v);
    assert(s[j + 0] == w[0]);
    assert(number_at(s, j) == Some((number_token(v), j + w.len())));
    lemma_next(s, i, j, j + w.len(), t, n);
}

/// The words of the script that makes the relation.
proof fn lemma_create_words(s: Seq<char>, o: int, t: Seq<TokV>, n: int)
    requires
        0 <= o,
        o + 51 <= s.len(),
        standing(s, o, ":create hist {k, v: Validity, tt: TxTime => x: Int}"@),
        0 <= n,
        n + 18 <= t.len(),
        t[n] == TokV::Mark(Sym::Colon),
        t[n + 1] == TokV::Word("create"@),
        t[n + 2] == TokV::Word("hist"@),
        t[n + 3] == TokV::Mark(Sym::BraceL),
        t[n + 4] == TokV::Word("k"@),
        t[n + 5] == TokV::Mark(Sym::Comma),
        t[n + 6] == TokV::Word("v"@),
        t[n + 7] == TokV::Mark(Sym::Colon),
        t[n + 8] == TokV::Word("Validity"@),
        t[n + 9] == TokV::Mark(Sym::Comma),
        t[n + 10] == TokV::Word("tt"@),
        t[n + 11] == TokV::Mark(Sym::Colon),
        t[n + 12] == TokV::Word("TxTime"@),
        t[n + 13] == TokV::Mark(Sym::Gives),
        t[n + 14] == TokV::Word("x"@),
        t[n + 15] == TokV::Mark(Sym::Colon),
        t[n + 16] == TokV::Word("Int"@),
        t[n + 17] == TokV::Mark(Sym::BraceR),
    ensures
        tokens_from(s, o, t.take(n)) == tokens_from(s, o + 51, t.take(n + 18)),
{
    let w = ":create hist {k, v: Validity, tt: TxTime => x: Int}"@;
    reveal_strlit(":create hist {k, v: Validity, tt: TxTime => x: Int}");
    reveal_strlit("Int");
    reveal_strlit("TxTime");
    reveal_strlit("Validity");
    reveal_strlit("create");
    reveal_strlit("hist");
    reveal_strlit("k");
    reveal_strlit("tt");
    reveal_strlit("v");
    reveal_strlit("x");
    assert(s[o] == w[0]);
    assert(s[o + 1] == w[1]);
    assert(s[o + 2] == w[2]);
    assert(s[o + 3] == w[3]);
    assert(s[o + 4] == w[4]);
    assert(s[o + 5] == w[5]);
    assert(s[o + 6] == w[6]);
    assert(s[o + 7] == w[7]);
    assert(s[o + 8] == w[8]);
    assert(s[o + 9] == w[9]);
    assert(s[o + 10] == w[10]);
    assert(s[o + 11] == w[11]);
    assert(s[o + 12] == w[12]);
    assert(s[o + 13] == w[13]);
    assert(s[o + 14] == w[14]);
    assert(s[o + 15] == w[15]);
    assert(s[o + 16] == w[16]);
    assert(s[o + 17] == w[17]);
    assert(s[o + 18] == w[18]);
    assert(s[o + 19] == w[19]);
    assert(s[o + 20] == w[20]);
    assert(s[o + 21] == w[21]);
    assert(s[o + 22] == w[22]);
    assert(s[o + 23] == w[23]);
    assert(s[o + 24] == w[24]);
    assert(s[o + 25] == w[25]);
    assert(s[o + 26] == w[26]);
    assert(s[o + 27] == w[27]);
    assert(s[o + 28] == w[28]);
    assert(s[o + 29] == w[29]);
    assert(s[o + 30] == w[30]);
    assert(s[o + 31] == w[31]);
    assert(s[o + 32] == w[32]);
    assert(s[o + 33] == w[33]);
    assert(s[o + 34] == w[34]);
    assert(s[o + 35] == w[35]);
    assert(s[o + 36] == w[36]);
    assert(s[o + 37] == w[37]);
    assert(s[o + 38] == w[38]);
    assert(s[o + 39] == w[39]);
    assert(s[o + 40] == w[40]);
    assert(s[o + 41] == w[41]);
    assert(s[o + 42] == w[42]);
    assert(s[o + 43] == w[43]);
    assert(s[o + 44] == w[44]);
    assert(s[o + 45] == w[45]);
    assert(s[o + 46] == w[46]);
    assert(s[o + 47] == w[47]);
    assert(s[o + 48] == w[48]);
    assert(s[o + 49] == w[49]);
    assert(s[o + 50] == w[50]);
    lemma_mark(s, o, o, o + 1, t, n, Sym::Colon);
    lemma_word(s, o + 1, o + 1, o + 7, t, n + 1, "create"@);
    lemma_word(s, o + 7, o + 8, o + 12, t, n + 2, "hist"@);
    lemma_mark(s, o + 12, o + 13, o + 14, t, n + 3, Sym::BraceL);
    lemma_word(s, o + 14, o + 14, o + 15, t, n + 4, "k"@);
    lemma_mark(s, o + 15, o + 15, o + 16, t, n + 5, Sym::Comma);
    lemma_word(s, o + 16, o + 17, o + 18, t, n + 6, "v"@);
    lemma_mark(s, o + 18, o + 18, o + 19, t, n + 7, Sym::Colon);
    lemma_word(s, o + 19, o + 20, o + 28, t, n + 8, "Validity"@);
    lemma_mark(s, o + 28, o + 28, o + 29, t, n + 9, Sym::Comma);
    lemma_word(s, o + 29, o + 30, o + 32, t, n + 10, "tt"@);
    lemma_mark(s, o + 32, o + 32, o + 33, t, n + 11, Sym::Colon);
    lemma_word(s, o + 33, o + 34, o + 40, t, n + 12, "TxTime"@);
    lemma_mark(s, o + 40, o + 41, o + 43, t, n + 13, Sym::Gives);
    lemma_word(s, o + 43, o + 44, o + 45, t, n + 14, "x"@);
    lemma_mark(s, o + 45, o + 45, o + 46, t, n + 15, Sym::Colon);
    lemma_word(s, o + 46, o + 47, o + 50, t, n + 16, "Int"@);
    lemma_mark(s, o + 50, o + 50, o + 51, t, n + 17, Sym::BraceR);
}

/// How a script that writes a row begins.
proof fn lemma_put_start(s: Seq<char>, o: int, t: Seq<TokV>, n: int)
    requires
        0 <= o,
        o + 20 <= s.len(),
        standing(s, o, "?[k, v, x] <- [[1, ["@),
        0 <= n,
        n + 14 <= t.len(),
        t[n] == TokV::Mark(Sym::Quest),
        t[n + 1] == TokV::Mark(Sym::BrackL),
        t[n + 2] == TokV::Word("k"@),
        t[n + 3] == TokV::Mark(Sym::Comma),
        t[n + 4] == TokV::Word("v"@),
        t[n + 5] == TokV::Mark(Sym::Comma),
        t[n + 6] == TokV::Word("x"@),
        t[n + 7] == TokV::Mark(Sym::BrackR),
        t[n + 8] == TokV::Mark(Sym::From),
        t[n + 9] == TokV::Mark(Sym::BrackL),
        t[n + 10] == TokV::Mark(Sym::BrackL),
        t[n + 11] == TokV::Int(1),
        t[n + 12] == TokV::Mark(Sym::Comma),
        t[n + 13] == TokV::Mark(Sym::BrackL),
    ensures
        tokens_from(s, o, t.take(n)) == tokens_from(s, o + 20, t.take(n + 14)),
{
    let w = "?[k, v, x] <- [[1, ["@;
    reveal_strlit("?[k, v, x] <- [[1, [");
    reveal_strlit("k");
    reveal_strlit("v");
    reveal_strlit("x");
    reveal_with_fuel(digits_from, 5);
    assert(s[o] == w[0]);
    assert(s[o + 1] == w[1]);
    assert(s[o + 2] == w[2]);
    assert(s[o + 3] == w[3]);
    assert(s[o + 4] == w[4]);
    assert(s[o + 5] == w[5]);
    assert(s[o + 6] == w[6]);
    assert(s[o + 7] == w[7]);
    assert(s[o + 8] == w[8]);
    assert(s[o + 9] == w[9]);
    assert(s[o + 10] == w[10]);
    assert(s[o + 11] == w[11]);
    assert(s[o + 12] == w[12]);
    assert(s[o + 13] == w[13]);
    assert(s[o + 14] == w[14]);
    assert(s[o + 15] == w[15]);
    assert(s[o + 16] == w[16]);
    assert(s[o + 17] == w[17]);
    assert(s[o + 18] == w[18]);
    assert(s[o + 19] == w[19]);
    lemma_mark(s, o, o, o + 1, t, n, Sym::Quest);
    lemma_mark(s, o + 1, o + 1, o + 2, t, n + 1, Sym::BrackL);
    lemma_word(s, o + 2, o + 2, o + 3, t, n + 2, "k"@);
    lemma_mark(s, o + 3, o + 3, o + 4, t, n + 3, Sym::Comma);
    lemma_word(s, o + 4, o + 5, o + 6, t, n + 4, "v"@);
    lemma_mark(s, o + 6, o + 6, o + 7, t, n + 5, Sym::Comma);
    lemma_word(s, o + 7, o + 8, o + 9, t, n + 6, "x"@);
    lemma_mark(s, o + 9, o + 9, o + 10, t, n + 7, Sym::BrackR);
    lemma_mark(s, o + 10, o + 11, o + 13, t, n + 8, Sym::From);
    lemma_mark(s, o + 13, o + 14, o + 15, t, n + 9, Sym::BrackL);
    lemma_mark(s, o + 15, o + 15, o + 16, t, n + 10, Sym::BrackL);
    lemma_number(s, o + 16, o + 16, o + 17, t, n + 11, 1);
    lemma_mark(s, o + 17, o + 17, o + 18, t, n + 12, Sym::Comma);
    lemma_mark(s, o + 18, o + 19, o + 20, t, n + 13, Sym::BrackL);
}

/// What stands between an instant and its flag.
proof fn lemma_comma(s: Seq<char>, o: int, t: Seq<TokV>, n: int)
    requires
        0 <= o,
        o + 2 <= s.len(),
        standing(s, o, ", "@),
        0 <= n,
        n + 1 <= t.len(),
        t[n] == TokV::Mark(Sym::Comma),
    ensures
        tokens_from(s, o, t.take(n)) == tokens_from(s, o + 1, t.take(n + 1)),
{
    let w = ", "@;
    reveal_strlit(", ");
    assert(s[o] == w[0]);
    assert(s[o + 1] == w[1]);
    lemma_mark(s, o, o, o + 1, t, n, Sym::Comma);
}

/// What stands between a flag and a value.
proof fn lemma_put_middle(s: Seq<char>, o: int, t: Seq<TokV>, n: int)
    requires
        0 <= o,
        o + 3 <= s.len(),
        standing(s, o, "], "@),
        0 <= n,
        n + 2 <= t.len(),
        t[n] == TokV::Mark(Sym::BrackR),
        t[n + 1] == TokV::Mark(Sym::Comma),
    ensures
        tokens_from(s, o, t.take(n)) == tokens_from(s, o + 2, t.take(n + 2)),
{
    let w = "], "@;
    reveal_strlit("], ");
    assert(s[o] == w[0]);
    assert(s[o + 1] == w[1]);
    assert(s[o + 2] == w[2]);
    lemma_mark(s, o, o, o + 1, t, n, Sym::BrackR);
    lemma_mark(s, o + 1, o + 1, o + 2, t, n + 1, Sym::Comma);
}

/// How a script that writes a row ends.
proof fn lemma_put_end(s: Seq<char>, o: int, t: Seq<TokV>, n: int)
    requires
        0 <= o,
        o + 24 <= s.len(),
        standing(s, o, "]] :put hist {k, v => x}"@),
        0 <= n,
        n + 12 <= t.len(),
        t[n] == TokV::Mark(Sym::BrackR),
        t[n + 1] == TokV::Mark(Sym::BrackR),
        t[n + 2] == TokV::Mark(Sym::Colon),
        t[n + 3] == TokV::Word("put"@),
        t[n + 4] == TokV::Word("hist"@),
        t[n + 5] == TokV::Mark(Sym::BraceL),
        t[n + 6] == TokV::Word("k"@),
        t[n + 7] == TokV::Mark(Sym::Comma),
        t[n + 8] == TokV::Word("v"@),
        t[n + 9] == TokV::Mark(Sym::Gives),
        t[n + 10] == TokV::Word("x"@),
        t[n + 11] == TokV::Mark(Sym::BraceR),
    ensures
        tokens_from(s, o, t.take(n)) == tokens_from(s, o + 24, t.take(n + 12)),
{
    let w = "]] :put hist {k, v => x}"@;
    reveal_strlit("]] :put hist {k, v => x}");
    reveal_strlit("hist");
    reveal_strlit("k");
    reveal_strlit("put");
    reveal_strlit("v");
    reveal_strlit("x");
    assert(s[o] == w[0]);
    assert(s[o + 1] == w[1]);
    assert(s[o + 2] == w[2]);
    assert(s[o + 3] == w[3]);
    assert(s[o + 4] == w[4]);
    assert(s[o + 5] == w[5]);
    assert(s[o + 6] == w[6]);
    assert(s[o + 7] == w[7]);
    assert(s[o + 8] == w[8]);
    assert(s[o + 9] == w[9]);
    assert(s[o + 10] == w[10]);
    assert(s[o + 11] == w[11]);
    assert(s[o + 12] == w[12]);
    assert(s[o + 13] == w[13]);
    assert(s[o + 14] == w[14]);
    assert(s[o + 15] == w[15]);
    assert(s[o + 16] == w[16]);
    assert(s[o + 17] == w[17]);
    assert(s[o + 18] == w[18]);
    assert(s[o + 19] == w[19]);
    assert(s[o + 20] == w[20]);
    assert(s[o + 21] == w[21]);
    assert(s[o + 22] == w[22]);
    assert(s[o + 23] == w[23]);
    lemma_mark(s, o, o, o + 1, t, n, Sym::BrackR);
    lemma_mark(s, o + 1, o + 1, o + 2, t, n + 1, Sym::BrackR);
    lemma_mark(s, o + 2, o + 3, o + 4, t, n + 2, Sym::Colon);
    lemma_word(s, o + 4, o + 4, o + 7, t, n + 3, "put"@);
    lemma_word(s, o + 7, o + 8, o + 12, t, n + 4, "hist"@);
    lemma_mark(s, o + 12, o + 13, o + 14, t, n + 5, Sym::BraceL);
    lemma_word(s, o + 14, o + 14, o + 15, t, n + 6, "k"@);
    lemma_mark(s, o + 15, o + 15, o + 16, t, n + 7, Sym::Comma);
    lemma_word(s, o + 16, o + 17, o + 18, t, n + 8, "v"@);
    lemma_mark(s, o + 18, o + 19, o + 21, t, n + 9, Sym::Gives);
    lemma_word(s, o + 21, o + 22, o + 23, t, n + 10, "x"@);
    lemma_mark(s, o + 23, o + 23, o + 24, t, n + 11, Sym::BraceR);
}

/// How a script that asks for the fact begins.
proof fn lemma_read_start(s: Seq<char>, o: int, t: Seq<TokV>, n: int)
    requires
        0 <= o,
        o + 32 <= s.len(),
        standing(s, o, "?[x] := *hist[k, v, t, x @ (vt: "@),
        0 <= n,
        n + 19 <= t.len(),
        t[n] == TokV::Mark(Sym::Quest),
        t[n + 1] == TokV::Mark(Sym::BrackL),
        t[n + 2] == TokV::Word("x"@),
        t[n + 3] == TokV::Mark(Sym::BrackR),
        t[n + 4] == TokV::Mark(Sym::Define),
        t[n + 5] == TokV::Mark(Sym::Star),
        t[n + 6] == TokV::Word("hist"@),
        t[n + 7] == TokV::Mark(Sym::BrackL),
        t[n + 8] == TokV::Word("k"@),
        t[n + 9] == TokV::Mark(Sym::Comma),
        t[n + 10] == TokV::Word("v"@),
        t[n + 11] == TokV::Mark(Sym::Comma),
        t[n + 12] == TokV::Word("t"@),
        t[n + 13] == TokV::Mark(Sym::Comma),
        t[n + 14] == TokV::Word("x"@),
        t[n + 15] == TokV::Mark(Sym::At),
        t[n + 16] == TokV::Mark(Sym::ParenL),
        t[n + 17] == TokV::Word("vt"@),
        t[n + 18] == TokV::Mark(Sym::Colon),
    ensures
        tokens_from(s, o, t.take(n)) == tokens_from(s, o + 31, t.take(n + 19)),
{
    let w = "?[x] := *hist[k, v, t, x @ (vt: "@;
    reveal_strlit("?[x] := *hist[k, v, t, x @ (vt: ");
    reveal_strlit("hist");
    reveal_strlit("k");
    reveal_strlit("t");
    reveal_strlit("v");
    reveal_strlit("vt");
    reveal_strlit("x");
    assert(s[o] == w[0]);
    assert(s[o + 1] == w[1]);
    assert(s[o + 2] == w[2]);
    assert(s[o + 3] == w[3]);
    assert(s[o + 4] == w[4]);
    assert(s[o + 5] == w[5]);
    assert(s[o + 6] == w[6]);
    assert(s[o + 7] == w[7]);
    assert(s[o + 8] == w[8]);
    assert(s[o + 9] == w[9]);
    assert(s[o + 10] == w[10]);
    assert(s[o + 11] == w[11]);
    assert(s[o + 12] == w[12]);
    assert(s[o + 13] == w[13]);
    assert(s[o + 14] == w[14]);
    assert(s[o + 15] == w[15]);
    assert(s[o + 16] == w[16]);
    assert(s[o + 17] == w[17]);
    assert(s[o + 18] == w[18]);
    assert(s[o + 19] == w[19]);
    assert(s[o + 20] == w[20]);
    assert(s[o + 21] == w[21]);
    assert(s[o + 22] == w[22]);
    assert(s[o + 23] == w[23]);
    assert(s[o + 24] == w[24]);
    assert(s[o + 25] == w[25]);
    assert(s[o + 26] == w[26]);
    assert(s[o + 27] == w[27]);
    assert(s[o + 28] == w[28]);
    assert(s[o + 29] == w[29]);
    assert(s[o + 30] == w[30]);
    assert(s[o + 31] == w[31]);
    lemma_mark(s, o, o, o + 1, t, n, Sym::Quest);
    lemma_mark(s, o + 1, o + 1, o + 2, t, n + 1, Sym::BrackL);
    lemma_word(s, o + 2, o + 2, o + 3, t, n + 2, "x"@);
    lemma_mark(s, o + 3, o + 3, o + 4, t, n + 3, Sym::BrackR);
    lemma_mark(s, o + 4, o + 5, o + 7, t, n + 4, Sym::Define);
    lemma_mark(s, o + 7, o + 8, o + 9, t, n + 5, Sym::Star);
    lemma_word(s, o + 9, o + 9, o + 13, t, n + 6, "hist"@);
    lemma_mark(s, o + 13, o + 13, o + 14, t, n + 7, Sym::BrackL);
    lemma_word(s, o + 14, o + 14, o + 15, t, n + 8, "k"@);
    lemma_mark(s, o + 15, o + 15, o + 16, t, n + 9, Sym::Comma);
    lemma_word(s, o + 16, o + 17, o + 18, t, n + 10, "v"@);
    lemma_mark(s, o + 18, o + 18, o + 19, t, n + 11, Sym::Comma);
    lemma_word(s, o + 19, o + 20, o + 21, t, n + 12, "t"@);
    lemma_mark(s, o + 21, o + 21, o + 22, t, n + 13, Sym::Comma);
    lemma_word(s, o + 22, o + 23, o + 24, t, n + 14, "x"@);
    lemma_mark(s, o + 24, o + 25, o + 26, t, n + 15, Sym::At);
    lemma_mark(s, o + 26, o + 27, o + 28, t, n + 16, Sym::ParenL);
    lemma_word(s, o + 28, o + 28, o + 30, t, n + 17, "vt"@);
    lemma_mark(s, o + 30, o + 30, o + 31, t, n + 18, Sym::Colon);
}

/// What stands between the two points in time.
proof fn lemma_read_middle(s: Seq<char>, o: int, t: Seq<TokV>, n: int)
    requires
        0 <= o,
        o + 6 <= s.len(),
        standing(s, o, ", tt: "@),
        0 <= n,
        n + 3 <= t.len(),
        t[n] == TokV::Mark(Sym::Comma),
        t[n + 1] == TokV::Word("tt"@),
        t[n + 2] == TokV::Mark(Sym::Colon),
    ensures
        tokens_from(s, o, t.take(n)) == tokens_from(s, o + 5, t.take(n + 3)),
{
    let w = ", tt: "@;
    reveal_strlit(", tt: ");
    reveal_strlit("tt");
    assert(s[o] == w[0]);
    assert(s[o + 1] == w[1]);
    assert(s[o + 2] == w[2]);
    assert(s[o + 3] == w[3]);
    assert(s[o + 4] == w[4]);
    assert(s[o + 5] == w[5]);
    lemma_mark(s, o, o, o + 1, t, n, Sym::Comma);
    lemma_word(s, o + 1, o + 2, o + 4, t, n + 1, "tt"@);
    lemma_mark(s, o + 4, o + 4, o + 5, t, n + 2, Sym::Colon);
}

/// How a script that asks for the fact ends.
proof fn lemma_read_end(s: Seq<char>, o: int, t: Seq<TokV>, n: int)
    requires
        0 <= o,
        o + 2 <= s.len(),
        standing(s, o, ")]"@),
        0 <= n,
        n + 2 <= t.len(),
        t[n] == TokV::Mark(Sym::ParenR),
        t[n + 1] == TokV::Mark(Sym::BrackR),
    ensures
        tokens_from(s, o, t.take(n)) == tokens_from(s, o + 2, t.take(n + 2)),
{
    let w = ")]"@;
    reveal_strlit(")]");
    assert(s[o] == w[0]);
    assert(s[o + 1] == w[1]);
    lemma_mark(s, o, o, o + 1, t, n, Sym::ParenR);
    lemma_mark(s, o + 1, o + 1, o + 2, t, n + 1, Sym::BrackR);
}

pub proof fn lemma_create_tokens()
    ensures
        tokens_from(history_script(0), 0, Seq::empty()) == Ok::<Seq<TokV>, Fault>(create_tokens()),
{
    let s = history_script(0);
    let t = create_tokens();
    reveal_strlit(":create hist {k, v: Validity, tt: TxTime => x: Int}");
    assert(t.take(0) =~= Seq::empty());
    lemma_create_words(s, 0, t, 0);
    assert(t.take(18) =~= t);
}

/// The tokens of a script that writes one row.
proof fn lemma_put_tokens(vt: i64, flag: Seq<char>, x: i64)
    requires
        0 <= vt,
        0 <= x,
        flag.len() > 0,
        forall|k: int| 0 <= k < flag.len() ==> is_letter(#[trigger] flag[k]),
        !is_blank(flag[0]),
        flag[0] != '#',
    ensures
        tokens_from(put_text(vt, flag, x), 0, Seq::empty()) == Ok::<Seq<TokV>, Fault>(
            put_tokens(vt, flag, x),
        ),
{
    let s = put_text(vt, flag, x);
    let t = put_tokens(vt, flag, x);
    reveal_strlit("?[k, v, x] <- [[1, [");
    reveal_strlit(", ");
    reveal_strlit("], ");
    reveal_strlit("]] :put hist {k, v => x}");
    let d = numeral(vt as int);
    let e = numeral(x as int);
    let a: int = 20;
    let b = a + d.len();
    let c = b + 2 + flag.len();
    let f = c + 3;
    let g = f + e.len();
    assert(s.len() == g + 24);
    assert(standing(s, 0, "?[k, v, x] <- [[1, ["@));
    assert(standing(s, a, d));
    assert(standing(s, b, ", "@));
    assert(standing(s, b + 2, flag));
    assert(standing(s, c, "], "@));
    assert(standing(s, f, e));
    assert(standing(s, g, "]] :put hist {k, v => x}"@));
    assert(s[b + 0] == ", "@[0]);
    assert(s[b + 1] == ", "@[1]);
    assert(s[c + 0] == "], "@[0]);
    assert(s[c + 2] == "], "@[2]);
    assert(s[g + 0] == "]] :put hist {k, v => x}"@[0]);
    assert(s[b + 2 + 0] == flag[0]);
    assert(t.take(0) =~= Seq::empty());
    lemma_put_start(s, 0, t, 0);
    lemma_count(s, a, a, t, 14, vt as int);
    lemma_comma(s, b, t, 15);
    lemma_word(s, b + 1, b + 2, c, t, 16, flag);
    lemma_put_middle(s, c, t, 17);
    lemma_count(s, c + 2, f, t, 19, x as int);
    lemma_put_end(s, g, t, 20);
    assert(t.take(32) =~= t);
}

pub proof fn lemma_first_tokens()
    ensures
        tokens_from(history_script(1), 0, Seq::empty()) == Ok::<Seq<TokV>, Fault>(
            put_tokens(100, "true"@, 1),
        ),
{
    lemma_small_numerals();
    reveal_strlit("true");
    reveal_strlit("?[k, v, x] <- [[1, [");
    reveal_strlit(", ");
    reveal_strlit("], ");
    reveal_strlit("]] :put hist {k, v => x}");
    reveal_strlit("?[k, v, x] <- [[1, [100, true], 1]] :put hist {k, v => x}");
    assert(history_script(1) =~= put_text(100, "true"@, 1));
    lemma_put_tokens(100, "true"@, 1);
}

pub proof fn lemma_second_tokens()
    ensures
        tokens_from(history_script(2), 0, Seq::empty()) == Ok::<Seq<TokV>, Fault>(
            put_tokens(200, "true"@, 2),
        ),
{
    lemma_small_numerals();
    reveal_strlit("true");
    reveal_strlit("?[k, v, x] <- [[1, [");
    reveal_strlit(", ");
    reveal_strlit("], ");
    reveal_strlit("]] :put hist {k, v => x}");
    reveal_strlit("?[k, v, x] <- [[1, [200, true], 2]] :put hist {k, v => x}");
    assert(history_script(2) =~= put_text(200, "true"@, 2));
    lemma_put_tokens(200, "true"@, 2);
}

pub proof fn lemma_third_tokens()
    ensures
        tokens_from(history_script(3), 0, Seq::empty()) == Ok::<Seq<TokV>, Fault>(
            put_tokens(200, "true"@, 3),
        ),
{
    lemma_small_numerals();
    reveal_strlit("true");
    reveal_strlit("?[k, v, x] <- [[1, [");
    reveal_strlit(", ");
    reveal_strlit("], ");
    reveal_strlit("]] :put hist {k, v => x}");
    reveal_strlit("?[k, v, x] <- [[1, [200, true], 3]] :put hist {k, v => x}");
    assert(history_script(3) =~= put_text(200, "true"@, 3));
    lemma_put_tokens(200, "true"@, 3);
}

pub proof fn lemma_fourth_tokens()
    ensures
        tokens_from(history_script(4), 0, Seq::empty()) == Ok::<Seq<TokV>, Fault>(
            put_tokens(300, "false"@, 0),
        ),
{
    lemma_small_numerals();
    reveal_strlit("false");
    reveal_strlit("?[k, v, x] <- [[1, [");
    reveal_strlit(", ");
    reveal_strlit("], ");
    reveal_strlit("]] :put hist {k, v => x}");
    reveal_strlit("?[k, v, x] <- [[1, [300, false], 0]] :put hist {k, v => x}");
    assert(history_script(4) =~= put_text(300, "false"@, 0));
    lemma_put_tokens(300, "false"@, 0);
}

proof fn lemma_small_numerals()
    ensures
        forall|n: int| 0 <= n < 10 ==> #[trigger] numeral(n) == seq![digit_char(n)],
        forall|n: int|
            100 <= n < 1000 ==> #[trigger] numeral(n) == seq![
                digit_char(n / 10 / 10),
                digit_char(n / 10 % 10),
                digit_char(n % 10),
            ],
{
    let none = Seq::<char>::empty();
    assert forall|n: int| 0 <= n < 10 implies #[trigger] numeral(n) == seq![digit_char(n)] by {
        assert(seq![digit_char(n)] + none =~= seq![digit_char(n)]);
    }
    assert forall|n: int| 100 <= n < 1000 implies #[trigger] numeral(n) == seq![
        digit_char(n / 10 / 10),
        digit_char(n / 10 % 10),
        digit_char(n % 10),
    ] by {
        reveal_with_fuel(decimal_from, 4);
        let a = seq![digit_char(n % 10)] + none;
        let b = seq![digit_char(n / 10 % 10)] + a;
        let c = seq![digit_char(n / 10 / 10)] + b;
        assert(c =~= seq![
            digit_char(n / 10 / 10),
            digit_char(n / 10 % 10),
            digit_char(n % 10),
        ]);
    }
}

pub proof fn lemma_read_tokens(vt: i64, tt: i64)
    requires
        0 <= vt,
        0 <= tt,
    ensures
        tokens_from(read_text(vt, tt), 0, Seq::empty()) == Ok::<Seq<TokV>, Fault>(
            read_tokens(vt, tt),
        ),
{
    let s = read_text(vt, tt);
    let m = vt;
    let t = read_tokens(vt, tt);
    reveal_strlit("?[x] := *hist[k, v, t, x @ (vt: ");
    reveal_strlit(", tt: ");
    reveal_strlit(")]");
    let d = numeral(m as int);
    let e = numeral(tt as int);
    let a: int = 32;
    let b = a + d.len();
    let c = b + 6;
    let f = c + e.len();
    assert(s.len() == f + 2);
    assert(standing(s, 0, "?[x] := *hist[k, v, t, x @ (vt: "@));
    assert(standing(s, a, d));
    assert(standing(s, b, ", tt: "@));
    assert(standing(s, c, e));
    assert(standing(s, f, ")]"@));
    assert(s[0int + 31] == "?[x] := *hist[k, v, t, x @ (vt: "@[31]);
    assert(s[b + 0] == ", tt: "@[0]);
    assert(s[b + 5] == ", tt: "@[5]);
    assert(s[f + 0] == ")]"@[0]);
    assert(t.take(0) =~= Seq::empty());
    lemma_read_start(s, 0, t, 0);
    lemma_count(s, a - 1, a, t, 19, m as int);
    lemma_read_middle(s, b, t, 20);
    lemma_count(s, c - 1, c, t, 23, tt as int);
    lemma_read_end(s, f, t, 24);
    assert(t.take(26) =~= t);
}

pub proof fn lemma_early_tokens(vt: i64, tt: i64)
    requires
        vt < 0,
        0 <= tt,
    ensures
        tokens_from(read_text(vt, tt), 0, Seq::empty()) == Ok::<Seq<TokV>, Fault>(
            early_tokens(-vt, tt),
        ),
{
    let s = read_text(vt, tt);
    let m: int = -vt;
    let t = early_tokens(m, tt);
    reveal_strlit("?[x] := *hist[k, v, t, x @ (vt: ");
    reveal_strlit(", tt: ");
    reveal_strlit(")]");
    let d = numeral(m);
    let e = numeral(tt as int);
    let a: int = 33;
    let b = a + d.len();
    let c = b + 6;
    let f = c + e.len();
    assert(s.len() == f + 2);
    assert(standing(s, 0, "?[x] := *hist[k, v, t, x @ (vt: "@));
    assert(standing(s, a, d));
    assert(standing(s, b, ", tt: "@));
    assert(standing(s, c, e));
    assert(standing(s, f, ")]"@));
    assert(s[0int + 31] == "?[x] := *hist[k, v, t, x @ (vt: "@[31]);
    assert(s[b + 0] == ", tt: "@[0]);
    assert(s[b + 5] == ", tt: "@[5]);
    assert(s[f + 0] == ")]"@[0]);
    assert(t.take(0) =~= Seq::empty());
    lemma_read_start(s, 0, t, 0);
    lemma_numeral(s, a, m);
    assert(s[a + 0] == d[0]);
    lemma_mark(s, a - 2, a - 1, a, t, 19, Sym::Minus);
    lemma_count(s, a, a, t, 20, m);
    lemma_read_middle(s, b, t, 21);
    lemma_count(s, c - 1, c, t, 24, tt as int);
    lemma_read_end(s, f, t, 25);
    assert(t.take(27) =~= t);
}

} // verus!
