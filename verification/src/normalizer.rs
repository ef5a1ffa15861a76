//! Turning a raw query into tokens, without the stop words, and into a
//! match expression for the full-text index.

use crate::text::{
    from_chars, is_whitespace, is_whitespace_char, lemma_skip_whitespace, skip_whitespace,
    to_chars,
};
use vstd::prelude::*;

verus! {

/// What `str::to_lowercase` makes of a text.
pub uninterp spec fn lowercase(s: Seq<char>) -> Seq<char>;

/// `str::to_lowercase`: the lowercase equivalent of the text, by the
/// Unicode rules that std follows; a function of the text alone.
#[verifier::external_body]
pub(crate) fn to_lowercase(s: &str) -> (r: String)
    ensures
        r@ == lowercase(s@),
{
    s.to_lowercase()
}

/// First position at or after `i` that holds white space; the length of
/// `s` if there is none.
pub open spec fn skip_word(s: Seq<char>, i: int) -> int
    decreases s.len() - i,
{
    if 0 <= i < s.len() && !is_whitespace_char(s[i]) {
        skip_word(s, i + 1)
    } else {
        i
    }
}

/// `skip_word` passes over characters other than white space only, and
/// stops at white space or at the end.
pub proof fn lemma_skip_word(s: Seq<char>, i: int)
    requires
        0 <= i <= s.len(),
    ensures
        i <= skip_word(s, i) <= s.len(),
        forall|k: int| i <= k < skip_word(s, i) ==> !is_whitespace_char(#[trigger] s[k]),
        skip_word(s, i) < s.len() ==> is_whitespace_char(s[skip_word(s, i)]),
        i < s.len() && !is_whitespace_char(s[i]) ==> i < skip_word(s, i),
    decreases s.len() - i,
{
    if i < s.len() && !is_whitespace_char(s[i]) {
        lemma_skip_word(s, i + 1);
    }
}

/// The maximal runs of characters other than white space in `s`, from
/// position `i` on, in order.
pub open spec fn tokens_from(s: Seq<char>, i: int) -> Seq<Seq<char>>
    decreases s.len() - i,
    when 0 <= i <= s.len()
    via tokens_from_decreases
{
    let a = skip_whitespace(s, i, s.len() as int);
    if a >= s.len() {
        Seq::empty()
    } else {
        let b = skip_word(s, a);
        seq![s.subrange(a, b)] + tokens_from(s, b)
    }
}

#[via_fn]
proof fn tokens_from_decreases(s: Seq<char>, i: int) {
    lemma_skip_whitespace(s, i, s.len() as int);
    let a = skip_whitespace(s, i, s.len() as int);
    if a < s.len() {
        lemma_skip_word(s, a);
    }
}

/// The tokens of a text: what lies between its stretches of white space.
pub open spec fn tokens(s: Seq<char>) -> Seq<Seq<char>> {
    tokens_from(s, 0)
}

/// The strings as sequences of characters.
pub open spec fn string_views(v: Seq<String>) -> Seq<Seq<char>> {
    v.map_values(|s: String| s@)
}

/// Splits a text on white space.
pub fn split_whitespace(text: &str) -> (r: Vec<String>)
    ensures
        string_views(r@) == tokens(text@),
{
    let v = to_chars(text);
    let len = v.len();
    let mut r: Vec<String> = Vec::new();
    let mut i: usize = 0;
    loop
        invariant
            len == v.len(),
            v@ == text@,
            i <= len,
            string_views(r@) + tokens_from(v@, i as int) == tokens(v@),
        ensures
            string_views(r@) == tokens(v@),
        decreases len - i,
    {
        let ghost i0 = i;
        while i < len && is_whitespace(v[i])
            invariant
                len == v.len(),
                i0 <= i <= len,
                skip_whitespace(v@, i0 as int, len as int) == skip_whitespace(
                    v@,
                    i as int,
                    len as int,
                ),
            decreases len - i,
        {
            i += 1;
        }
        if i >= len {
            assert(tokens_from(v@, i0 as int) == Seq::<Seq<char>>::empty());
            assert(string_views(r@) + Seq::<Seq<char>>::empty() == string_views(r@));
            break ;
        }
        let a: usize = i;
        while i < len && !is_whitespace(v[i])
            invariant
                len == v.len(),
                a <= i <= len,
                skip_word(v@, a as int) == skip_word(v@, i as int),
            decreases len - i,
        {
            i += 1;
        }
        proof {
            lemma_skip_word(v@, a as int);
            let rest = tokens_from(v@, i as int);
            let word = v@.subrange(a as int, i as int);
            assert(tokens_from(v@, i0 as int) == seq![word] + rest);
            assert(string_views(r@) + (seq![word] + rest) == (string_views(r@) + seq![word])
                + rest);
        }
        let word = from_chars(&v, a, i);
        assert(string_views(r@.push(word)) == string_views(r@) + seq![word@]);
        r.push(word);
    }
    r
}

/// The words that a query is matched without.
pub struct StopWords {
    words: Vec<String>,
}

/// The stop words that an engine starts with.
pub open spec fn standard_stop_words() -> Seq<Seq<char>> {
    seq![
        "a"@,
        "an"@,
        "and"@,
        "are"@,
        "as"@,
        "at"@,
        "be"@,
        "by"@,
        "for"@,
        "from"@,
        "has"@,
        "he"@,
        "in"@,
        "is"@,
        "it"@,
        "its"@,
        "of"@,
        "on"@,
        "that"@,
        "the"@,
        "to"@,
        "was"@,
        "will"@,
        "with"@,
    ]
}

impl View for StopWords {
    type V = Seq<Seq<char>>;

    closed spec fn view(&self) -> Seq<Seq<char>> {
        string_views(self.words@)
    }
}

impl StopWords {
    /// Whether `token`, in lowercase, is one of the words.
    pub open spec fn drops(&self, token: Seq<char>) -> bool {
        self@.contains(lowercase(token))
    }

    fn empty() -> (r: StopWords)
        ensures
            r@ == Seq::<Seq<char>>::empty(),
    {
        let r = StopWords { words: Vec::new() };
        assert(r@ =~= Seq::<Seq<char>>::empty());
        r
    }

    fn add(&mut self, word: &str)
        ensures
            final(self)@ == old(self)@.push(word@),
    {
        self.words.push(word.to_owned());
        assert(self@ =~= old(self)@.push(word@));
    }

    /// The standard stop words.
    pub fn standard() -> (r: StopWords)
        ensures
            r@ == standard_stop_words(),
    {
        let mut r = StopWords::empty();
        r.add("a");
        r.add("an");
        r.add("and");
        r.add("are");
        r.add("as");
        r.add("at");
        r.add("be");
        r.add("by");
        r.add("for");
        r.add("from");
        r.add("has");
        r.add("he");
        r.add("in");
        r.add("is");
        r.add("it");
        r.add("its");
        r.add("of");
        r.add("on");
        r.add("that");
        r.add("the");
        r.add("to");
        r.add("was");
        r.add("will");
        r.add("with");
        assert(r@ =~= standard_stop_words());
        r
    }

    /// Whether `word` is one of the words, as it is written.
    pub fn contains(&self, word: &str) -> (b: bool)
        ensures
            b == self@.contains(word@),
    {
        let key = word.to_owned();
        let mut i: usize = 0;
        while i < self.words.len()
            invariant
                i <= self.words.len(),
                key@ == word@,
                forall|k: int| 0 <= k < i ==> (#[trigger] self@[k]) != word@,
            decreases self.words.len() - i,
        {
            if self.words[i] == key {
                assert(self@[i as int] == word@);
                return true;
            }
            i += 1;
        }
        false
    }

    /// Whether `token` is a stop word, whatever its case.
    pub fn is_stop_word(&self, token: &str) -> (b: bool)
        ensures
            b == self.drops(token@),
    {
        let lower = to_lowercase(token);
        self.contains(lower.as_str())
    }
}

/// The tokens among `tokens` that are no stop words, in order.
pub open spec fn kept(tokens: Seq<Seq<char>>, stop: StopWords) -> Seq<Seq<char>>
    decreases tokens.len(),
{
    if tokens.len() == 0 {
        Seq::empty()
    } else if stop.drops(tokens.last()) {
        kept(tokens.drop_last(), stop)
    } else {
        kept(tokens.drop_last(), stop).push(tokens.last())
    }
}

/// The tokens of a query that count: those that are no stop words.
pub open spec fn query_tokens(query: Seq<char>, stop: StopWords) -> Seq<Seq<char>> {
    kept(tokens(query), stop)
}

/// Every token of the query is a stop word (so also: it has no token).
pub open spec fn only_stop_words(query: Seq<char>, stop: StopWords) -> bool {
    forall|i: int| 0 <= i < tokens(query).len() ==> stop.drops(#[trigger] tokens(query)[i])
}

/// Nothing is kept of tokens that are all stop words, and only of those.
pub proof fn lemma_kept_empty(tokens: Seq<Seq<char>>, stop: StopWords)
    ensures
        kept(tokens, stop).len() == 0 <==> forall|i: int|
            0 <= i < tokens.len() ==> stop.drops(#[trigger] tokens[i]),
        kept(tokens, stop).len() <= tokens.len(),
    decreases tokens.len(),
{
    if tokens.len() > 0 {
        lemma_kept_empty(tokens.drop_last(), stop);
        let init = tokens.drop_last();
        if stop.drops(tokens.last()) {
            if kept(tokens, stop).len() == 0 {
                assert forall|i: int| 0 <= i < tokens.len() implies stop.drops(
                    #[trigger] tokens[i],
                ) by {
                    if i < tokens.len() - 1 {
                        assert(tokens[i] == init[i]);
                    }
                }
            } else {
                let k = choose|k: int| 0 <= k < init.len() && !stop.drops(#[trigger] init[k]);
                assert(tokens[k] == init[k]);
            }
        } else {
            assert(tokens[tokens.len() - 1] == tokens.last());
        }
    }
}

/// A token is kept exactly when it is one of the tokens and no stop word.
pub proof fn lemma_kept_members(tokens: Seq<Seq<char>>, stop: StopWords, t: Seq<char>)
    ensures
        kept(tokens, stop).contains(t) <==> tokens.contains(t) && !stop.drops(t),
    decreases tokens.len(),
{
    let k = kept(tokens, stop);
    if tokens.len() > 0 {
        let init = tokens.drop_last();
        let last = tokens.last();
        let ki = kept(init, stop);
        lemma_kept_members(init, stop, t);
        if k.contains(t) {
            let i = choose|i: int| 0 <= i < k.len() && k[i] == t;
            if !stop.drops(last) && i == k.len() - 1 {
                assert(tokens[tokens.len() - 1] == t);
            } else {
                assert(ki[i] == t);
                assert(ki.contains(t));
                let j = choose|j: int| 0 <= j < init.len() && init[j] == t;
                assert(tokens[j] == t);
            }
        }
        if tokens.contains(t) && !stop.drops(t) {
            let j = choose|j: int| 0 <= j < tokens.len() && tokens[j] == t;
            if j == tokens.len() - 1 {
                assert(k[k.len() - 1] == t);
            } else {
                assert(init[j] == t);
                assert(init.contains(t));
                let i = choose|i: int| 0 <= i < ki.len() && ki[i] == t;
                assert(k[i] == t);
            }
        }
    }
}

/// The tokens of `query` without the stop words.
pub fn significant_tokens(query: &str, stop: &StopWords) -> (r: Vec<String>)
    ensures
        string_views(r@) == query_tokens(query@, *stop),
{
    let all = split_whitespace(query);
    let mut r: Vec<String> = Vec::new();
    let mut i: usize = 0;
    while i < all.len()
        invariant
            i <= all.len(),
            string_views(all@) == tokens(query@),
            string_views(r@) == kept(string_views(all@).take(i as int), *stop),
        decreases all.len() - i,
    {
        let ghost before = string_views(all@).take(i as int);
        let ghost after = string_views(all@).take(i + 1);
        assert(after.drop_last() == before);
        assert(after.last() == all[i as int]@);
        if !stop.is_stop_word(all[i].as_str()) {
            let word = all[i].clone();
            assert(string_views(r@.push(word)) == string_views(r@).push(word@));
            r.push(word);
        }
        i += 1;
    }
    assert(string_views(all@).take(all.len() as int) == string_views(all@));
    r
}

/// `token` with every double quote doubled.
pub open spec fn escaped(token: Seq<char>) -> Seq<char>
    decreases token.len(),
{
    if token.len() == 0 {
        Seq::empty()
    } else if token.last() == '"' {
        escaped(token.drop_last()).push('"').push('"')
    } else {
        escaped(token.drop_last()).push(token.last())
    }
}

/// `token` as a phrase of the index's query language: between double
/// quotes, its own double quotes doubled.
pub open spec fn phrase(token: Seq<char>) -> Seq<char> {
    seq!['"'] + escaped(token) + seq!['"']
}

/// The phrases of the tokens, joined by ` OR `; empty for no token.
pub open spec fn match_expression(tokens: Seq<Seq<char>>) -> Seq<char>
    decreases tokens.len(),
{
    if tokens.len() == 0 {
        Seq::empty()
    } else if tokens.len() == 1 {
        phrase(tokens[0])
    } else {
        match_expression(tokens.drop_last()) + seq![' ', 'O', 'R', ' '] + phrase(tokens.last())
    }
}

/// An expression is empty exactly when it is made of no token.
pub proof fn lemma_match_expression_empty(tokens: Seq<Seq<char>>)
    ensures
        match_expression(tokens).len() == 0 <==> tokens.len() == 0,
    decreases tokens.len(),
{
    if tokens.len() > 1 {
        lemma_match_expression_empty(tokens.drop_last());
    }
}

fn push_phrase(out: &mut String, token: &str)
    ensures
        final(out)@ == old(out)@ + phrase(token@),
{
    let v = to_chars(token);
    out.push('"');
    let mut i: usize = 0;
    while i < v.len()
        invariant
            i <= v.len(),
            out@ == old(out)@ + seq!['"'] + escaped(v@.take(i as int)),
        decreases v.len() - i,
    {
        assert(v@.take(i + 1).drop_last() == v@.take(i as int));
        assert(v@.take(i + 1).last() == v[i as int]);
        if v[i] == '"' {
            out.push('"');
            out.push('"');
        } else {
            out.push(v[i]);
        }
        i += 1;
    }
    assert(v@.take(v.len() as int) == v@);
    out.push('"');
    assert(out@ == old(out)@ + phrase(token@));
}

/// The match expression of the given tokens.
pub fn build_match_expression(tokens: &Vec<String>) -> (r: String)
    ensures
        r@ == match_expression(string_views(tokens@)),
{
    let mut r = String::new();
    let mut i: usize = 0;
    while i < tokens.len()
        invariant
            i <= tokens.len(),
            r@ == match_expression(string_views(tokens@).take(i as int)),
        decreases tokens.len() - i,
    {
        let ghost before = string_views(tokens@).take(i as int);
        let ghost after = string_views(tokens@).take(i + 1);
        assert(after.drop_last() == before);
        assert(after.last() == tokens[i as int]@);
        if i > 0 {
            r.push(' ');
            r.push('O');
            r.push('R');
            r.push(' ');
            assert(r@ == match_expression(before) + seq![' ', 'O', 'R', ' ']);
        } else {
            assert(after[0] == tokens[0]@);
        }
        push_phrase(&mut r, tokens[i].as_str());
        i += 1;
    }
    assert(string_views(tokens@).take(tokens.len() as int) == string_views(tokens@));
    r
}

/// The match expression of a query: its tokens that are no stop words, each
/// as a phrase, any of which may match. Empty when nothing is left.
pub fn process_query(query: &str, stop: &StopWords) -> (r: String)
    ensures
        r@ == match_expression(query_tokens(query@, *stop)),
        r@.len() == 0 <==> only_stop_words(query@, *stop),
{
    let kept_tokens = significant_tokens(query, stop);
    proof {
        lemma_kept_empty(tokens(query@), *stop);
        lemma_match_expression_empty(query_tokens(query@, *stop));
    }
    build_match_expression(&kept_tokens)
}

} // verus!
