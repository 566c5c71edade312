//! The options of a query as they are written.
use vstd::prelude::*;

use crate::error::Fault;
use crate::lex::{Sym, TokV};
use crate::parse::{int_at, is_mark, word_at};
use crate::parse_query::{p_option, p_sort_keys};
use crate::query::{ProgramV, SortKeyV};
use crate::stmt::ParamV;

verus! {

/// A sort key is descending if and only if a minus stands before its name; where
/// no comma follows it, it is the last.
pub proof fn law_minus_turns_a_key(
    t: Seq<TokV>,
    ps: Seq<ParamV>,
    i: int,
    acc: Seq<SortKeyV>,
    name: Seq<char>,
    fuel: nat,
)
    requires
        fuel > 0,
    ensures
        is_mark(t, i, Sym::Minus) && word_at(t, i + 1) == Some(name) && !is_mark(
            t,
            i + 2,
            Sym::Comma,
        ) ==> (p_sort_keys(t, ps, i, acc, fuel) matches Ok((ks, j)) && ks.len() == acc.len() + 1
            && ks.last().var == name && ks.last().down && ks.drop_last() == acc && j == i + 2),
        !is_mark(t, i, Sym::Minus) && word_at(t, i) == Some(name) && !is_mark(
            t,
            i + 1,
            Sym::Comma,
        ) ==> (p_sort_keys(t, ps, i, acc, fuel) matches Ok((ks, j)) && ks.len() == acc.len() + 1
            && ks.last().var == name && !ks.last().down && ks.drop_last() == acc && j == i + 1),
{
    reveal(p_sort_keys);
    assert(acc.push(SortKeyV { var: name, down: true }).drop_last() =~= acc);
    assert(acc.push(SortKeyV { var: name, down: false }).drop_last() =~= acc);
}

/// Keys that were read stay as they were read, whatever follows them.
pub proof fn law_keys_stay(
    t: Seq<TokV>,
    ps: Seq<ParamV>,
    i: int,
    acc: Seq<SortKeyV>,
    fuel: nat,
    k: int,
)
    requires
        0 <= k < acc.len(),
    ensures
        p_sort_keys(t, ps, i, acc, fuel) matches Ok((ks, _)) ==> ks.len() > acc.len() && ks[k]
            == acc[k],
    decreases fuel,
{
    reveal(p_sort_keys);
    if fuel > 0 {
        if is_mark(t, i, Sym::Minus) {
            if let Some(n) = word_at(t, i + 1) {
                let more = acc.push(SortKeyV { var: n, down: true });
                law_keys_stay(t, ps, i + 3, more, (fuel - 1) as nat, k);
            }
        } else {
            if let Some(n) = word_at(t, i) {
                let more = acc.push(SortKeyV { var: n, down: false });
                law_keys_stay(t, ps, i + 2, more, (fuel - 1) as nat, k);
            }
        }
    }
}

/// Keys that a comma parts are read one after the other, each with its own
/// direction.
pub proof fn law_comma_brings_a_key(
    t: Seq<TokV>,
    ps: Seq<ParamV>,
    i: int,
    acc: Seq<SortKeyV>,
    name: Seq<char>,
    fuel: nat,
)
    requires
        fuel > 0,
    ensures
        is_mark(t, i, Sym::Minus) && word_at(t, i + 1) == Some(name) && is_mark(
            t,
            i + 2,
            Sym::Comma,
        ) ==> (p_sort_keys(t, ps, i, acc, fuel) matches Ok((ks, _)) ==> ks.len() > acc.len() + 1
            && ks[acc.len() as int].var == name && ks[acc.len() as int].down),
        !is_mark(t, i, Sym::Minus) && word_at(t, i) == Some(name) && is_mark(
            t,
            i + 1,
            Sym::Comma,
        ) ==> (p_sort_keys(t, ps, i, acc, fuel) matches Ok((ks, _)) ==> ks.len() > acc.len() + 1
            && ks[acc.len() as int].var == name && !ks[acc.len() as int].down),
{
    reveal(p_sort_keys);
    let less = (fuel - 1) as nat;
    let down = acc.push(SortKeyV { var: name, down: true });
    let up = acc.push(SortKeyV { var: name, down: false });
    law_keys_stay(t, ps, i + 3, down, less, acc.len() as int);
    law_keys_stay(t, ps, i + 2, up, less, acc.len() as int);
}

/// What the options say of an answer is what the query holds: the number of rows
/// that are shown at most, the number that are left out before them, the keys,
/// and that a write tells its rows. An option changes nothing else.
pub proof fn law_options_are_kept(
    t: Seq<TokV>,
    ps: Seq<ParamV>,
    i: int,
    p: ProgramV,
    k: i64,
    fuel: nat,
)
    requires
        fuel > 0,
        k >= 0,
    ensures
        int_at(t, i) == Some(k) ==> (p_option(t, ps, i, p, "limit"@, fuel) matches Ok((q, j))
            && q.limit == Some(k as u64) && q == (ProgramV { limit: q.limit, ..p }) && j == i + 1),
        int_at(t, i) == Some(k) ==> (p_option(t, ps, i, p, "offset"@, fuel) matches Ok((q, j))
            && q.offset == k && q == (ProgramV { offset: q.offset, ..p }) && j == i + 1),
        p_option(t, ps, i, p, "returning"@, fuel) == Ok::<(ProgramV, int), Fault>(
            ((ProgramV { returning: true, ..p }), i),
        ),
        p_option(t, ps, i, p, "order"@, fuel) == p_option(t, ps, i, p, "sort"@, fuel),
        p_option(t, ps, i, p, "order"@, fuel) matches Ok((q, j)) ==> q == (ProgramV {
            sort: q.sort,
            ..p
        }) && p_sort_keys(t, ps, i, Seq::empty(), (fuel - 1) as nat) == Ok::<
            (Seq<SortKeyV>, int),
            Fault,
        >((q.sort, j)),
{
    reveal(p_option);
    reveal_strlit("returning");
    reveal_strlit("limit");
    reveal_strlit("offset");
    reveal_strlit("order");
    reveal_strlit("sort");
    assert("returning"@.len() == 9 && "offset"@.len() == 6 && "sort"@.len() == 4);
    assert("limit"@.len() == 5 && "limit"@[0] == 'l');
    assert("order"@.len() == 5 && "order"@[0] == 'o');
}

} // verus!
