//! Splitting texts into words.
use vstd::prelude::*;

use crate::error::{DbError, ErrKind, Fault, err_on, fault_on, outcome};
use crate::list::{Dup, List, opt_of};
use crate::value::{DataValue, Value, chars_of, code, values_of};

verus! {

/// Wraps `String::push`: the character is appended.
#[verifier::external_body]
pub(crate) fn push_char(s: &mut String, c: char)
    ensures
        final(s)@ == old(s)@.push(c),
{
    s.push(c)
}

/// Whether a character belongs to a word: letters, digits, and everything
/// beyond ASCII.
pub open spec fn is_word_char(c: char) -> bool {
    ('a' <= c && c <= 'z') || ('A' <= c && c <= 'Z') || ('0' <= c && c <= '9') || c as u32 >= 128
}

fn word_char(c: char) -> (r: bool)
    ensures
        r == is_word_char(c),
{
    ('a' <= c && c <= 'z') || ('A' <= c && c <= 'Z') || ('0' <= c && c <= '9') || code(c) >= 128
}

/// A character in lower case, where it is a capital of ASCII.
pub open spec fn lowered(c: char) -> char {
    if 'A' <= c && c <= 'Z' {
        (c as u8 + 32) as u8 as char
    } else {
        c
    }
}

fn lower(c: char) -> (r: char)
    ensures
        r == lowered(c),
{
    if 'A' <= c && c <= 'Z' {
        let n: u8 = c as u8;
        (n + 32) as char
    } else {
        c
    }
}

/// A word of a text and where it stands there.
#[derive(Debug)]
pub struct Token {
    pub text: String,
    pub offset_from: usize,
    pub offset_to: usize,
}

/// The mathematical counterpart of [`Token`].
#[verifier::ext_equal]
pub struct TokenV {
    pub text: Seq<char>,
    pub from: usize,
    pub to: usize,
}

impl View for Token {
    type V = TokenV;

    open spec fn view(&self) -> TokenV {
        TokenV { text: self.text@, from: self.offset_from, to: self.offset_to }
    }
}

/// The words from place `i` on as they stand, after those in `acc`; `word` is
/// the part of a word that ends before `i`.
pub open spec fn tokens_from(
    s: Seq<char>,
    i: int,
    word: Seq<char>,
    acc: Seq<TokenV>,
) -> Seq<TokenV>
    decreases s.len() - i,
{
    let done = acc.push(TokenV { text: word, from: (i - word.len()) as usize, to: i as usize });
    if i < 0 || i >= s.len() {
        if word.len() == 0 {
            acc
        } else {
            done
        }
    } else if is_word_char(s[i]) {
        tokens_from(s, i + 1, word.push(s[i]), acc)
    } else if word.len() == 0 {
        tokens_from(s, i + 1, word, acc)
    } else {
        tokens_from(s, i + 1, Seq::empty(), done)
    }
}

fn split(s: &str) -> (r: List<Token>)
    ensures
        r@ == tokens_from(s@, 0, Seq::empty(), Seq::empty()),
{
    let c = chars_of(s);
    let mut acc: List<Token> = List::new();
    let mut word: String = String::new();
    let mut start: usize = 0;
    let mut i: usize = 0;
    assert(word@ =~= Seq::<char>::empty());
    while i < c.len()
        invariant
            start <= i <= c@.len(),
            c@ == s@,
            start == i - word@.len(),
            tokens_from(s@, 0, Seq::empty(), Seq::empty()) == tokens_from(
                s@,
                i as int,
                word@,
                acc@,
            ),
        decreases c@.len() - i,
    {
        let x: char = c[i];
        if word_char(x) {
            push_char(&mut word, x);
        } else {
            if start < i {
                acc.push(Token { text: word, offset_from: start, offset_to: i });
                word = String::new();
                assert(word@ =~= Seq::<char>::empty());
            }
            start = i + 1;
        }
        i = i + 1;
    }
    if start < i {
        acc.push(Token { text: word, offset_from: start, offset_to: i });
    }
    acc
}

/// What is done with the words of a text.
#[derive(Clone, Copy, Debug, PartialEq, Eq, Structural)]
pub enum Filter {
    /// Writes them in lower case.
    Lowercase,
    /// Reduces English words to their stems.
    Stem,
    /// Leaves out the commonest English words.
    Stop,
}

impl View for Filter {
    type V = Filter;

    open spec fn view(&self) -> Filter {
        *self
    }
}

impl Dup for Filter {
    fn dup(&self) -> (r: Self) {
        *self
    }
}

/// A word in lower case.
pub open spec fn lowered_word(w: Seq<char>) -> Seq<char> {
    Seq::new(w.len(), |i: int| lowered(w[i]))
}

fn lower_word(w: &str) -> (r: String)
    ensures
        r@ == lowered_word(w@),
{
    let c = chars_of(w);
    let mut r = String::new();
    let mut i: usize = 0;
    assert(r@ =~= Seq::<char>::empty());
    while i < c.len()
        invariant
            i <= c@.len(),
            c@ == w@,
            r@ =~= lowered_word(w@).take(i as int),
        decreases c@.len() - i,
    {
        push_char(&mut r, lower(c[i]));
        i = i + 1;
    }
    assert(lowered_word(w@).take(i as int) =~= lowered_word(w@));
    r
}

/// Whether a word consists of small letters and digits of ASCII.
pub open spec fn is_english(w: Seq<char>) -> bool {
    w.len() <= 0x7fff_ffff && forall|i: int|
        0 <= i < w.len() ==> ('a' <= #[trigger] w[i] && w[i] <= 'z') || ('0' <= w[i] && w[i] <= '9')
}

fn english(w: &str) -> (r: bool)
    ensures
        r == is_english(w@),
{
    let c = chars_of(w);
    if c.len() > 0x7fff_ffff {
        return false;
    }
    let mut i: usize = 0;
    while i < c.len()
        invariant
            i <= c@.len() <= 0x7fff_ffff,
            c@ == w@,
            forall|k: int|
                0 <= k < i ==> ('a' <= #[trigger] w@[k] && w@[k] <= 'z') || ('0' <= w@[k] && w@[k]
                    <= '9'),
        decreases c@.len() - i,
    {
        let x: char = c[i];
        if !(('a' <= x && x <= 'z') || ('0' <= x && x <= '9')) {
            assert(!(('a' <= w@[i as int] && w@[i as int] <= 'z') || ('0' <= w@[i as int]
                && w@[i as int] <= '9')));
            return false;
        }
        i = i + 1;
    }
    true
}

/// The stem that `rust_stemmers` finds of an English word.
pub uninterp spec fn english_stem(word: Seq<char>) -> Seq<char>;

/// Wraps `rust_stemmers::Stemmer::stem` with the English algorithm: the stem
/// depends on the word alone. It is asked only of words in small letters and
/// digits of ASCII, in which every place is one between characters, and of none
/// that is too long for its counters of 32 bits.
#[verifier::external_body]
fn stem_english(word: &str) -> (r: String)
    requires
        is_english(word@),
    ensures
        r@ == english_stem(word@),
{
    rust_stemmers::Stemmer::create(rust_stemmers::Algorithm::English).stem(word).into_owned()
}

/// The commonest English words.
pub open spec fn stop_words() -> Seq<Seq<char>> {
    seq![
        "a"@, "an"@, "and"@, "are"@, "as"@, "at"@, "be"@, "but"@, "by"@, "for"@, "if"@, "in"@,
        "into"@, "is"@, "it"@, "no"@, "not"@, "of"@, "on"@, "or"@, "such"@, "that"@, "the"@,
        "their"@, "then"@, "there"@, "these"@, "they"@, "this"@, "to"@, "was"@, "will"@, "with"@
    ]
}

fn list_stop_words() -> (r: List<String>)
    ensures
        r@ == stop_words(),
{
    let all: [&str; 33] = [
        "a", "an", "and", "are", "as", "at", "be", "but", "by", "for", "if", "in", "into", "is",
        "it", "no", "not", "of", "on", "or", "such", "that", "the", "their", "then", "there",
        "these", "they", "this", "to", "was", "will", "with",
    ];
    let mut r: List<String> = List::new();
    let mut i: usize = 0;
    while i < 33
        invariant
            i <= 33,
            all@.len() == 33,
            stop_words().len() == 33,
            forall|k: int| 0 <= k < 33 ==> #[trigger] all@[k]@ == stop_words()[k],
            r@ =~= stop_words().take(i as int),
        decreases 33 - i,
    {
        r.push(all[i].to_owned());
        i = i + 1;
    }
    assert(stop_words().take(i as int) =~= stop_words());
    r
}

fn is_stop_word(w: &String) -> (r: bool)
    ensures
        r == stop_words().contains(w@),
{
    let all = list_stop_words();
    let mut i: usize = 0;
    while i < all.len()
        invariant
            i <= all@.len(),
            all@ == stop_words(),
            forall|k: int| 0 <= k < i ==> all@[k] != w@,
        decreases all@.len() - i,
    {
        if *all.get(i) == *w {
            assert(all@[i as int] == w@);
            return true;
        }
        i = i + 1;
    }
    false
}

/// What a filter makes of a word, where the stem of the word is told; nothing
/// where it leaves the word out.
pub open spec fn passed(f: Filter, w: Seq<char>, stem: Seq<char>) -> Option<Seq<char>> {
    match f {
        Filter::Lowercase => Some(lowered_word(w)),
        Filter::Stem => Some(
            if is_english(w) {
                stem
            } else {
                w
            },
        ),
        Filter::Stop => if stop_words().contains(w) {
            None
        } else {
            Some(w)
        },
    }
}

/// What a filter makes of a word, where the stem of the word is told.
pub fn pass(f: Filter, w: String, stem: String) -> (r: Option<String>)
    ensures
        opt_of(r) == passed(f, w@, stem@),
{
    match f {
        Filter::Lowercase => Some(lower_word(w.as_str())),
        Filter::Stem => if english(w.as_str()) {
            Some(stem)
        } else {
            Some(w)
        },
        Filter::Stop => if is_stop_word(&w) {
            None
        } else {
            Some(w)
        },
    }
}

/// What the filters from place `i` on make of a word.
pub open spec fn filtered_from(fs: Seq<Filter>, i: int, w: Seq<char>) -> Option<Seq<char>>
    decreases fs.len() - i,
{
    if i < 0 || i >= fs.len() {
        Some(w)
    } else {
        match passed(fs[i], w, english_stem(w)) {
            None => None,
            Some(v) => filtered_from(fs, i + 1, v),
        }
    }
}

fn filter(fs: &List<Filter>, word: String) -> (r: Option<String>)
    ensures
        opt_of(r) == filtered_from(fs@, 0, word@),
{
    let ghost goal = filtered_from(fs@, 0, word@);
    let mut w = word;
    let mut i: usize = 0;
    while i < fs.len()
        invariant
            i <= fs@.len(),
            goal == filtered_from(fs@, 0, word@),
            goal == filtered_from(fs@, i as int, w@),
        decreases fs@.len() - i,
    {
        let f = *fs.get(i);
        let stem = if f == Filter::Stem && english(w.as_str()) {
            stem_english(w.as_str())
        } else {
            String::new()
        };
        match pass(f, w, stem) {
            None => {
                return None;
            },
            Some(v) => {
                w = v;
            },
        }
        i = i + 1;
    }
    Some(w)
}

/// The words from place `i` on that the filters leave, after `acc`.
pub open spec fn kept_from(ts: Seq<TokenV>, fs: Seq<Filter>, i: int, acc: Seq<TokenV>) -> Seq<
    TokenV,
>
    decreases ts.len() - i,
{
    if i < 0 || i >= ts.len() {
        acc
    } else {
        match filtered_from(fs, 0, ts[i].text) {
            None => kept_from(ts, fs, i + 1, acc),
            Some(text) => kept_from(ts, fs, i + 1, acc.push(TokenV { text, ..ts[i] })),
        }
    }
}

/// The words of a text with their places, as filters leave them.
pub open spec fn tokens_of(s: Seq<char>, fs: Seq<Filter>) -> Seq<TokenV> {
    kept_from(tokens_from(s, 0, Seq::empty(), Seq::empty()), fs, 0, Seq::empty())
}

/// The words of a text with their places, as filters leave them.
pub fn tokens(s: &str, fs: &List<Filter>) -> (r: List<Token>)
    ensures
        r@ == tokens_of(s@, fs@),
{
    let ts = split(s);
    let mut acc: List<Token> = List::new();
    let mut i: usize = 0;
    while i < ts.len()
        invariant
            i <= ts@.len(),
            kept_from(ts@, fs@, 0, Seq::empty()) == kept_from(ts@, fs@, i as int, acc@),
        decreases ts@.len() - i,
    {
        let t = ts.get(i);
        match filter(fs, t.text.clone()) {
            None => {},
            Some(text) => {
                acc.push(Token { text, offset_from: t.offset_from, offset_to: t.offset_to });
            },
        }
        i = i + 1;
    }
    acc
}

/// The texts of words.
pub open spec fn texts_of(ts: Seq<TokenV>) -> Seq<Seq<char>> {
    Seq::new(ts.len(), |i: int| ts[i].text)
}

/// The words of a text, as filters leave them.
pub open spec fn words_of(s: Seq<char>, fs: Seq<Filter>) -> Seq<Seq<char>> {
    texts_of(tokens_of(s, fs))
}

/// The words of a text, as filters leave them.
pub fn words(s: &str, fs: &List<Filter>) -> (r: List<String>)
    ensures
        r@ == words_of(s@, fs@),
{
    let ts = tokens(s, fs);
    let mut acc: List<String> = List::new();
    let mut i: usize = 0;
    while i < ts.len()
        invariant
            i <= ts@.len(),
            acc@ =~= texts_of(ts@).take(i as int),
        decreases ts@.len() - i,
    {
        acc.push(ts.get(i).text.clone());
        i = i + 1;
    }
    assert(texts_of(ts@).take(i as int) =~= texts_of(ts@));
    acc
}

/// Which tokenizer or filter is wanted, by name and arguments.
pub struct TokenizerConfig {
    pub name: String,
    pub args: Vec<DataValue>,
}

/// Splits texts into words.
pub struct TextAnalyzer {
    pub filters: List<Filter>,
}

/// The words of a text that were not yet taken.
pub struct TokenStream {
    pub left: List<Token>,
}

impl View for TokenStream {
    type V = Seq<TokenV>;

    open spec fn view(&self) -> Seq<TokenV> {
        self.left@
    }
}

impl TokenStream {
    /// Takes the next word.
    pub fn next(&mut self) -> (r: Option<Token>)
        ensures
            old(self)@.len() == 0 ==> r is None && final(self)@ == old(self)@,
            old(self)@.len() > 0 ==> r is Some && r->0@ == old(self)@[0] && final(self)@
                == old(self)@.remove(0),
    {
        if self.left.len() == 0 {
            None
        } else {
            Some(self.left.remove(0))
        }
    }
}

impl View for TextAnalyzer {
    type V = Seq<Filter>;

    open spec fn view(&self) -> Seq<Filter> {
        self.filters@
    }
}

impl TextAnalyzer {
    /// The words of a text.
    pub fn token_stream(&self, text: &str) -> (r: TokenStream)
        ensures
            r@ == tokens_of(text@, self@),
    {
        TokenStream { left: tokens(text, &self.filters) }
    }
}

/// The filter that a name and its arguments stand for.
pub open spec fn filter_named(name: Seq<char>, args: Seq<Value>) -> Result<Filter, Fault> {
    if name == "Lowercase"@ && args.len() == 0 {
        Ok(Filter::Lowercase)
    } else if name == "Stemmer"@ && args.len() == 1 && args[0] == Value::Str("English"@) {
        Ok(Filter::Stem)
    } else if name == "Stopwords"@ && args.len() == 1 && args[0] == Value::Str("en"@) {
        Ok(Filter::Stop)
    } else {
        Err(fault_on(ErrKind::UnknownFunction, name))
    }
}

fn is_text(v: &DataValue, w: &str) -> (r: bool)
    ensures
        r == (v@ == Value::Str(w@)),
{
    match v {
        DataValue::Str(s) => *s == w.to_owned(),
        _ => false,
    }
}

/// The filter that a name and its arguments stand for.
pub fn name_filter(name: &str, args: &Vec<DataValue>) -> (r: Result<Filter, DbError>)
    ensures
        outcome(r) == filter_named(name@, values_of(args@)),
{
    let n = name.to_owned();
    if n == "Lowercase".to_owned() && args.len() == 0 {
        Ok(Filter::Lowercase)
    } else if n == "Stemmer".to_owned() && args.len() == 1 && is_text(&args[0], "English") {
        Ok(Filter::Stem)
    } else if n == "Stopwords".to_owned() && args.len() == 1 && is_text(&args[0], "en") {
        Ok(Filter::Stop)
    } else {
        Err(err_on(ErrKind::UnknownFunction, name))
    }
}

/// The filters that names and arguments from place `i` on stand for, after
/// `acc`.
pub open spec fn filters_from(filters: Seq<TokenizerConfig>, i: int, acc: Seq<Filter>) -> Result<
    Seq<Filter>,
    Fault,
>
    decreases filters.len() - i,
{
    if i < 0 || i >= filters.len() {
        Ok(acc)
    } else {
        match filter_named(filters[i].name@, values_of(filters[i].args@)) {
            Err(f) => Err(f),
            Ok(f) => filters_from(filters, i + 1, acc.push(f)),
        }
    }
}

/// Makes tokenizers.
#[derive(Default)]
pub struct TokenizerCache {}

impl TokenizerCache {
    /// The tokenizer of a configuration, followed by filters. The only one is
    /// `Simple`; the filters are `Lowercase`, `Stemmer` for English, and
    /// `Stopwords` for English.
    pub fn get(
        &self,
        name: &str,
        tokenizer: &TokenizerConfig,
        filters: &[TokenizerConfig],
    ) -> (r: Result<TextAnalyzer, DbError>)
        ensures
            outcome(r) == (if tokenizer.name@ == "Simple"@ {
                filters_from(filters@, 0, Seq::empty())
            } else {
                Err(fault_on(ErrKind::UnknownFunction, tokenizer.name@))
            }),
    {
        if !(tokenizer.name == "Simple".to_owned()) {
            return Err(err_on(ErrKind::UnknownFunction, tokenizer.name.as_str()));
        }
        let mut acc: List<Filter> = List::new();
        let mut i: usize = 0;
        while i < filters.len()
            invariant
                i <= filters@.len(),
                tokenizer.name@ == "Simple"@,
                filters_from(filters@, 0, Seq::empty()) == filters_from(
                    filters@,
                    i as int,
                    acc@,
                ),
            decreases filters@.len() - i,
        {
            match name_filter(filters[i].name.as_str(), &filters[i].args) {
                Err(e) => {
                    return Err(e);
                },
                Ok(f) => {
                    acc.push(f);
                },
            }
            i = i + 1;
        }
        Ok(TextAnalyzer { filters: acc })
    }
}

} // verus!
