//! What the words of a text are.
use vstd::prelude::*;

use crate::fts::{
    Filter, TokenV, filtered_from, is_word_char, kept_from, passed, stop_words, tokens_from,
    tokens_of,
};

verus! {

/// Whether a token is a part of a text that consists of characters of words, with
/// none before it or behind it.
pub open spec fn is_run(s: Seq<char>, t: TokenV) -> bool {
    &&& t.from < t.to <= s.len()
    &&& t.text == s.subrange(t.from as int, t.to as int)
    &&& forall|k: int| t.from <= k < t.to ==> is_word_char(#[trigger] s[k])
    &&& t.from > 0 ==> !is_word_char(s[t.from - 1])
    &&& t.to < s.len() ==> !is_word_char(s[t.to as int])
}

/// Whether a place of a text lies in one of some tokens.
pub open spec fn is_in_some(ts: Seq<TokenV>, k: int) -> bool {
    exists|n: int| 0 <= n < ts.len() && (#[trigger] ts[n]).from <= k < ts[n].to
}

spec fn told_before(s: Seq<char>, end: int, ts: Seq<TokenV>) -> bool {
    &&& forall|n: int| 0 <= n < ts.len() ==> is_run(s, #[trigger] ts[n]) && ts[n].to < end
    &&& forall|m: int, n: int|
        0 <= m < n < ts.len() ==> (#[trigger] ts[m]).to < (#[trigger] ts[n]).from
    &&& forall|k: int|
        0 <= k < end && k < s.len() && is_word_char(#[trigger] s[k]) ==> is_in_some(ts, k)
}

proof fn lemma_one_more(s: Seq<char>, start: int, i: int, ts: Seq<TokenV>, t: TokenV)
    requires
        told_before(s, start, ts),
        0 <= start < i <= s.len() <= usize::MAX,
        t.from == start,
        t.to == i,
        is_run(s, t),
    ensures
        told_before(s, i + 1, ts.push(t)),
{
    let us = ts.push(t);
    assert forall|k: int| 0 <= k < i + 1 && k < s.len() && is_word_char(#[trigger] s[k]) implies
        is_in_some(us, k) by {
        if k < start {
            let n = choose|n: int| 0 <= n < ts.len() && (#[trigger] ts[n]).from <= k < ts[n].to;
            assert(us[n] == ts[n]);
        } else {
            assert(us[ts.len() as int] == t);
        }
    }
    assert forall|n: int| 0 <= n < us.len() implies is_run(s, #[trigger] us[n]) && us[n].to < i
        + 1 by {
        if n < ts.len() {
            assert(us[n] == ts[n]);
        }
    }
    assert forall|m: int, n: int| 0 <= m < n < us.len() implies (#[trigger] us[m]).to < (
    #[trigger] us[n]).from by {
        assert(us[m] == ts[m]);
        if n < ts.len() {
            assert(us[n] == ts[n]);
        }
    }
}

proof fn lemma_runs(s: Seq<char>, i: int, word: Seq<char>, acc: Seq<TokenV>)
    requires
        s.len() < usize::MAX,
        0 <= i <= s.len(),
        word.len() <= i,
        word == s.subrange(i - word.len(), i),
        forall|k: int| i - word.len() <= k < i ==> is_word_char(#[trigger] s[k]),
        i - word.len() > 0 ==> !is_word_char(s[i - word.len() - 1]),
        told_before(s, i - word.len(), acc),
    ensures
        told_before(s, s.len() as int + 1, tokens_from(s, i, word, acc)),
    decreases s.len() - i,
{
    let start = i - word.len();
    let t = TokenV { text: word, from: start as usize, to: i as usize };
    if i >= s.len() {
        if word.len() > 0 {
            lemma_one_more(s, start, i, acc, t);
        }
    } else if is_word_char(s[i]) {
        assert(word.push(s[i]) =~= s.subrange(start, i + 1));
        lemma_runs(s, i + 1, word.push(s[i]), acc);
    } else if word.len() == 0 {
        assert(word =~= s.subrange(i + 1, i + 1));
        lemma_runs(s, i + 1, word, acc);
    } else {
        lemma_one_more(s, start, i, acc, t);
        assert(Seq::<char>::empty() =~= s.subrange(i + 1, i + 1));
        lemma_runs(s, i + 1, Seq::empty(), acc.push(t));
    }
}

/// The words of a text are its longest parts of characters of words, in their
/// order, and every such character is in one of them.
pub proof fn law_words_are_whole(s: Seq<char>)
    requires
        s.len() < usize::MAX,
    ensures
        ({
            let ts = tokens_from(s, 0, Seq::empty(), Seq::empty());
            &&& forall|n: int| 0 <= n < ts.len() ==> is_run(s, #[trigger] ts[n])
            &&& forall|m: int, n: int|
                0 <= m < n < ts.len() ==> (#[trigger] ts[m]).to < (#[trigger] ts[n]).from
            &&& forall|k: int|
                0 <= k < s.len() && is_word_char(#[trigger] s[k]) ==> is_in_some(ts, k)
        }),
{
    assert(Seq::<char>::empty() =~= s.subrange(0, 0));
    lemma_runs(s, 0, Seq::empty(), Seq::empty());
}

/// Letters and digits belong to words, and so does everything beyond ASCII;
/// blanks and marks do not. Words in lower case hold no capital, and every other
/// character as it was.
pub proof fn law_letters_make_words(c: char, w: Seq<char>, k: int)
    requires
        0 <= k < w.len(),
    ensures
        'a' <= c <= 'z' || 'A' <= c <= 'Z' || '0' <= c <= '9' || c as u32 > 127 ==> is_word_char(c),
        c as u32 <= 47 || (58 <= c as u32 <= 64) || (91 <= c as u32 <= 96) || (123 <= c as u32
            <= 127) ==> !is_word_char(c),
        passed(Filter::Lowercase, w, w) matches Some(v) && v.len() == w.len() && v[k] as u32
            == w[k] as u32 + if 'A' <= w[k] <= 'Z' {
            32int
        } else {
            0
        },
{
}

/// A word is left out where the filter of stop words finds it among them, and
/// stays as it is where it does not.
pub proof fn law_stop_words_are_left_out(w: Seq<char>, stem: Seq<char>)
    ensures
        stop_words().contains(w) ==> passed(Filter::Stop, w, stem) is None,
        !stop_words().contains(w) ==> passed(Filter::Stop, w, stem) == Some(w),
        w == "the"@ || w == "of"@ || w == "and"@ || w == "a"@ || w == "is"@ ==> stop_words().contains(
            w,
        ),
{
    let l = stop_words();
    assert(l[0] == "a"@ && l[2] == "and"@ && l[13] == "is"@ && l[17] == "of"@ && l[22] == "the"@);
}

proof fn lemma_kept(ts: Seq<TokenV>, fs: Seq<Filter>, i: int, acc: Seq<TokenV>)
    requires
        0 <= i <= ts.len(),
    ensures
        ({
            let r = kept_from(ts, fs, i, acc);
            &&& acc.is_prefix_of(r)
            &&& r.len() <= acc.len() + ts.len() - i
            &&& forall|k: int|
                i <= k < ts.len() ==> match filtered_from(fs, 0, (#[trigger] ts[k]).text) {
                    Some(text) => r.contains(TokenV { text, ..ts[k] }),
                    None => true,
                }
            &&& (forall|k: int|
                i <= k < ts.len() ==> filtered_from(fs, 0, (#[trigger] ts[k]).text) is Some)
                ==> r.len() == acc.len() + ts.len() - i
        }),
    decreases ts.len() - i,
{
    if i < ts.len() {
        let r = kept_from(ts, fs, i, acc);
        match filtered_from(fs, 0, ts[i].text) {
            None => {
                lemma_kept(ts, fs, i + 1, acc);
            },
            Some(text) => {
                let t = TokenV { text, ..ts[i] };
                lemma_kept(ts, fs, i + 1, acc.push(t));
                assert(acc.push(t)[acc.len() as int] == t);
                assert(r[acc.len() as int] == t);
                assert(acc.is_prefix_of(r));
            },
        }
    }
}

/// Each word of a text that the filters leave is kept, with its place; where no
/// word is left out, there are as many as before, and without filters the words
/// stay as they stand.
pub proof fn law_filters_keep_words(s: Seq<char>, fs: Seq<Filter>, k: int)
    requires
        0 <= k < tokens_from(s, 0, Seq::empty(), Seq::empty()).len(),
    ensures
        ({
            let ts = tokens_from(s, 0, Seq::empty(), Seq::empty());
            let r = tokens_of(s, fs);
            &&& filtered_from(fs, 0, ts[k].text) matches Some(text) ==> r.contains(
                TokenV { text, ..ts[k] },
            )
            &&& fs.len() == 0 ==> r.contains(ts[k]) && r.len() == ts.len()
            &&& r.len() <= ts.len()
        }),
{
    let ts = tokens_from(s, 0, Seq::empty(), Seq::empty());
    lemma_kept(ts, fs, 0, Seq::empty());
    if fs.len() == 0 {
        assert(filtered_from(fs, 0, ts[k].text) == Some(ts[k].text));
    }
}

} // verus!
