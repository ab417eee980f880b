//! The tokenizer: source text is cut at white space into words, and each
//! word is classified by itself.

use vstd::prelude::*;
use vstd::slice::slice_subrange;
use crate::number::{parse_integer, parsed};
use crate::op::{chars_of, lemma_names_distinct, lookup, Op};

verus! {

/// One word of source text, classified.
#[derive(Debug, Clone, PartialEq, Eq)]
pub enum Token {
    /// The name of an opcode.
    Op(Op),
    /// A signed decimal integer.
    Value(i64),
    /// A word that starts with `:`. The colon is not part of the name.
    Label(String),
    /// A word that is none of these.
    Unknown(String),
}

/// The mathematical model of a token.
pub enum Lexeme {
    Op(Op),
    Value(i64),
    Label(Seq<char>),
    Unknown(Seq<char>),
}

/// The first word of a source text that is no opcode name, no label and no
/// integer.
#[derive(Debug, Clone, PartialEq, Eq)]
pub struct LexError {
    /// The word as it stands in the text.
    pub lexeme: String,
    /// How many words stand before it.
    pub index: usize,
}

impl View for Token {
    type V = Lexeme;

    open spec fn view(&self) -> Lexeme {
        match self {
            Token::Op(op) => Lexeme::Op(*op),
            Token::Value(v) => Lexeme::Value(*v),
            Token::Label(name) => Lexeme::Label(name@),
            Token::Unknown(word) => Lexeme::Unknown(word@),
        }
    }
}

impl Token {
    /// Returns a copy of the token.
    pub fn duplicate(&self) -> (copy: Token)
        ensures
            copy@ == self@,
    {
        match self {
            Token::Op(op) => Token::Op(*op),
            Token::Value(v) => Token::Value(*v),
            Token::Label(name) => Token::Label(name.clone()),
            Token::Unknown(word) => Token::Unknown(word.clone()),
        }
    }
}

/// Whether `c` has the Unicode property White_Space, as `char::is_whitespace`
/// reports it.
pub uninterp spec fn white_space(c: char) -> bool;

/// Calls `char::is_whitespace` of the standard library. Nothing is claimed
/// of which characters are white space: the result is only given the name
/// `white_space`.
#[verifier::external_body]
fn is_whitespace(c: char) -> (r: bool)
    ensures
        r == white_space(c),
{
    c.is_whitespace()
}

/// The models of a sequence of tokens.
pub open spec fn lexemes(tokens: Seq<Token>) -> Seq<Lexeme> {
    tokens.map_values(|t: Token| t@)
}

/// The length of the longest run without white space that `s` starts with.
pub open spec fn word_len(s: Seq<char>) -> int
    decreases s.len(),
{
    if s.len() == 0 || white_space(s[0]) {
        0
    } else {
        1 + word_len(s.skip(1))
    }
}

/// The words of a text: its maximal runs of characters that are not white
/// space, in order. No word is empty.
pub open spec fn words(s: Seq<char>) -> Seq<Seq<char>>
    decreases s.len(),
    via words_decreases
{
    if s.len() == 0 {
        Seq::empty()
    } else if white_space(s[0]) {
        words(s.skip(1))
    } else {
        seq![s.take(word_len(s))] + words(s.skip(word_len(s)))
    }
}

#[via_fn]
proof fn words_decreases(s: Seq<char>) {
    if s.len() > 0 && !white_space(s[0]) {
        lemma_word_len_bounds(s);
    }
}

/// What a word is. The checks are made in this order: the name of an
/// opcode, a label, an integer.
pub open spec fn classify(word: Seq<char>) -> Lexeme {
    if exists|op: Op| op.spelled(word) {
        Lexeme::Op(choose|op: Op| op.spelled(word))
    } else if word.len() > 0 && word[0] == ':' {
        Lexeme::Label(word.skip(1))
    } else if parsed(word) is Some {
        Lexeme::Value(parsed(word)->0)
    } else {
        Lexeme::Unknown(word)
    }
}

/// The tokens of a text: its words, each classified.
pub open spec fn scan(s: Seq<char>) -> Seq<Lexeme> {
    words(s).map_values(|w: Seq<char>| classify(w))
}

/// Whether the lexeme at `index` is unknown and none before it is.
pub open spec fn first_unknown(all: Seq<Lexeme>, index: int) -> bool {
    &&& 0 <= index < all.len()
    &&& all[index] is Unknown
    &&& forall|j: int| 0 <= j < index ==> !((#[trigger] all[j]) is Unknown)
}

/// Whether no lexeme is unknown.
pub open spec fn all_known(all: Seq<Lexeme>) -> bool {
    forall|j: int| 0 <= j < all.len() ==> !((#[trigger] all[j]) is Unknown)
}

/// A word is rejected exactly when it is no opcode name, no label and no
/// integer. Every other word becomes the token of its kind, and a word
/// that starts with a colon is always a label.
pub proof fn lemma_classify(word: Seq<char>)
    ensures
        classify(word) is Unknown <==> {
            &&& forall|op: Op| !op.spelled(word)
            &&& !(word.len() > 0 && word[0] == ':')
            &&& parsed(word) is None
        },
        classify(word) matches Lexeme::Unknown(w) ==> w == word,
        classify(word) matches Lexeme::Op(op) ==> op.spelled(word),
        classify(word) matches Lexeme::Label(name) ==> word == seq![':'] + name,
        classify(word) matches Lexeme::Value(v) ==> parsed(word) == Some(v),
        word.len() > 0 && word[0] == ':' ==> classify(word) is Label,
{
    crate::op::reveal_names();
    if word.len() > 0 && word[0] == ':' {
        assert(word =~= seq![':'] + word.skip(1));
        assert forall|op: Op| !op.spelled(word) by {
            assert(op.name()[0] != ':');
        }
    }
}

/// A word that starts a text ends inside the text, and is not empty where
/// the text starts with something other than white space.
pub proof fn lemma_word_len_bounds(s: Seq<char>)
    ensures
        0 <= word_len(s) <= s.len(),
        s.len() > 0 && !white_space(s[0]) ==> word_len(s) >= 1,
    decreases s.len(),
{
    if s.len() > 0 && !white_space(s[0]) {
        lemma_word_len_bounds(s.skip(1));
    }
}

/// A run of `k` characters without white space, followed by white space or
/// by the end of the text, is the word that starts the text.
pub proof fn lemma_word_len(s: Seq<char>, k: int)
    requires
        0 <= k <= s.len(),
        forall|j: int| 0 <= j < k ==> !white_space(#[trigger] s[j]),
        k == s.len() || white_space(s[k]),
    ensures
        word_len(s) == k,
    decreases k,
{
    if k > 0 {
        let rest = s.skip(1);
        assert forall|j: int| 0 <= j < k - 1 implies !white_space(#[trigger] rest[j]) by {
            assert(rest[j] == s[j + 1]);
        }
        if k < s.len() {
            assert(rest[k - 1] == s[k]);
        }
        lemma_word_len(rest, k - 1);
    }
}

/// The tokenizer reports nothing but what the text holds: the words of a
/// text are free of white space and not empty.
pub proof fn lemma_words_clean(s: Seq<char>, i: int)
    requires
        0 <= i < words(s).len(),
    ensures
        words(s)[i].len() > 0,
        forall|j: int| 0 <= j < words(s)[i].len() ==> !white_space(#[trigger] words(s)[i][j]),
    decreases s.len(),
{
    if s.len() == 0 {
    } else if white_space(s[0]) {
        lemma_words_clean(s.skip(1), i);
    } else {
        lemma_word_len_bounds(s);
        let n = word_len(s);
        if i == 0 {
            lemma_word_clean(s);
            assert(words(s)[0] == s.take(n));
        } else {
            assert(words(s)[i] == words(s.skip(n))[i - 1]);
            lemma_words_clean(s.skip(n), i - 1);
        }
    }
}

/// The word that starts a text holds no white space.
pub proof fn lemma_word_clean(s: Seq<char>)
    ensures
        forall|j: int| 0 <= j < word_len(s) ==> !white_space(#[trigger] s[j]),
    decreases s.len(),
{
    if s.len() > 0 && !white_space(s[0]) {
        lemma_word_clean(s.skip(1));
        lemma_word_len_bounds(s);
        assert forall|j: int| 0 <= j < word_len(s) implies !white_space(#[trigger] s[j]) by {
            if j > 0 {
                assert(s[j] == s.skip(1)[j - 1]);
            }
        }
    }
}

/// Finds the end of the word that starts at `start`.
fn word_end(chars: &[char], start: usize) -> (end: usize)
    requires
        start < chars@.len(),
        !white_space(chars@[start as int]),
    ensures
        start < end <= chars@.len(),
        end - start == word_len(chars@.skip(start as int)),
{
    let n = chars.len();
    let mut end: usize = start + 1;
    while end < n && !is_whitespace(chars[end])
        invariant
            start < end <= n,
            n == chars@.len(),
            forall|j: int| start <= j < end ==> !white_space(#[trigger] chars@[j]),
        decreases n - end,
    {
        end += 1;
    }
    proof {
        let rest = chars@.skip(start as int);
        assert forall|j: int| 0 <= j < end - start implies !white_space(#[trigger] rest[j]) by {
            assert(rest[j] == chars@[start + j]);
        }
        lemma_word_len(rest, end - start);
    }
    end
}

/// Classifies the word that runs from `start` to `end`.
fn classify_word(content: &str, chars: &[char], start: usize, end: usize) -> (token: Token)
    requires
        chars@ == content@,
        start < end <= chars@.len(),
    ensures
        token@ == classify(chars@.subrange(start as int, end as int)),
{
    let word = slice_subrange(chars, start, end);
    match lookup(word) {
        Some(op) => {
            proof {
                let chosen = choose|op: Op| op.spelled(word@);
                lemma_names_distinct(chosen, op);
            }
            Token::Op(op)
        },
        None => {
            if word[0] == ':' {
                let name = content.substring_char(start + 1, end);
                assert(name@ =~= word@.skip(1));
                Token::Label(String::from_str(name))
            } else {
                match parse_integer(word) {
                    Some(v) => Token::Value(v),
                    None => Token::Unknown(String::from_str(content.substring_char(start, end))),
                }
            }
        },
    }
}

/// Cuts a text into words and classifies each, unknown words included.
fn scan_tokens(content: &str) -> (tokens: Vec<Token>)
    ensures
        lexemes(tokens@) == scan(content@),
{
    let chars = chars_of(content);
    let n = chars.len();
    let mut tokens: Vec<Token> = Vec::new();
    let ghost mut done: Seq<Seq<char>> = Seq::empty();
    let mut i: usize = 0;
    assert(chars@.skip(0) =~= chars@);
    while i < n
        invariant
            i <= n,
            n == chars@.len(),
            chars@ == content@,
            done + words(chars@.skip(i as int)) == words(chars@),
            tokens@.len() == done.len(),
            forall|j: int| 0 <= j < done.len() ==> (#[trigger] tokens@[j])@ == classify(done[j]),
        decreases n - i,
    {
        let ghost rest = chars@.skip(i as int);
        assert(rest[0] == chars@[i as int]);
        if is_whitespace(chars[i]) {
            assert(rest.skip(1) =~= chars@.skip(i + 1));
            i += 1;
        } else {
            let end = word_end(chars.as_slice(), i);
            let token = classify_word(content, chars.as_slice(), i, end);
            proof {
                let word = chars@.subrange(i as int, end as int);
                assert(rest.take(end - i) =~= word);
                assert(rest.skip(end - i) =~= chars@.skip(end as int));
                assert(done.push(word) + words(chars@.skip(end as int)) =~= done + words(rest));
                done = done.push(word);
            }
            tokens.push(token);
            i = end;
        }
    }
    assert(words(chars@.skip(n as int)) =~= Seq::<Seq<char>>::empty());
    assert(done =~= words(chars@));
    assert(lexemes(tokens@) =~= scan(content@));
    tokens
}

/// Turns source text into tokens.
///
/// The text is cut at every run of white space, and each word is
/// classified by itself. Fails when a word is no opcode name, no label and
/// no integer, and then reports the first such word in the order of the
/// text.
pub fn tokenize(content: &str) -> (r: Result<Vec<Token>, LexError>)
    ensures
        r matches Ok(tokens) ==> lexemes(tokens@) == scan(content@) && all_known(scan(content@)),
        r matches Err(e) ==> first_unknown(scan(content@), e.index as int) && scan(
            content@,
        )[e.index as int] == Lexeme::Unknown(e.lexeme@),
{
    let tokens = scan_tokens(content);
    let mut i: usize = 0;
    while i < tokens.len()
        invariant
            i <= tokens@.len(),
            lexemes(tokens@) == scan(content@),
            forall|j: int| 0 <= j < i ==> !((#[trigger] scan(content@)[j]) is Unknown),
        decreases tokens@.len() - i,
    {
        assert(lexemes(tokens@)[i as int] == tokens@[i as int]@);
        if let Token::Unknown(word) = &tokens[i] {
            return Err(LexError { lexeme: word.clone(), index: i });
        }
        i += 1;
    }
    Ok(tokens)
}

} // verus!
