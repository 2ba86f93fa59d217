//! Lexing of schema documents, type tokens and import paths.
//!
//! A text is cut into tokens: a maximal run of word characters is one token,
//! every other character that is not whitespace is a token of its own.

use vstd::prelude::*;

verus! {

/// `String::push` appends the character to the end of the string.
pub assume_specification[ String::push ](s: &mut String, c: char)
    ensures
        final(s)@ == old(s)@.push(c),
;

/// The whitespace between tokens: space, tab, line feed, carriage return.
pub open spec fn is_space(c: char) -> bool {
    c == ' ' || c == '\t' || c == '\n' || c == '\r'
}

/// The digits `0` to `9`.
pub open spec fn is_digit(c: char) -> bool {
    '0' <= c <= '9'
}

/// Letters, digits, the underscore and every character outside ASCII.
pub open spec fn is_word_char(c: char) -> bool {
    c == '_' || is_digit(c) || 'a' <= c <= 'z' || 'A' <= c <= 'Z' || c > '\x7f'
}

/// A non-empty run of word characters that does not start with a digit.
pub open spec fn is_identifier(token: Seq<char>) -> bool {
    &&& token.len() > 0
    &&& !is_digit(token[0])
    &&& forall|i: int| 0 <= i < token.len() ==> is_word_char(#[trigger] token[i])
}

/// What the lexer holds after a prefix of the text: the finished tokens and
/// the word that is still growing.
pub struct LexState {
    pub done: Seq<Seq<char>>,
    pub word: Seq<char>,
}

/// The finished tokens and the growing word, where there is one.
pub open spec fn lex_flush(st: LexState) -> Seq<Seq<char>> {
    if st.word.len() > 0 {
        st.done.push(st.word)
    } else {
        st.done
    }
}

/// The state after one more character: a word character lets the word
/// grow, any other character ends it, and one that is no whitespace is a
/// token of its own.
pub open spec fn lex_step(st: LexState, c: char) -> LexState {
    if is_word_char(c) {
        LexState { done: st.done, word: st.word.push(c) }
    } else if is_space(c) {
        LexState { done: lex_flush(st), word: Seq::empty() }
    } else {
        LexState { done: lex_flush(st).push(seq![c]), word: Seq::empty() }
    }
}

/// The state of the lexer after the given text.
pub open spec fn lex_state(text: Seq<char>) -> LexState
    decreases text.len(),
{
    if text.len() == 0 {
        LexState { done: Seq::empty(), word: Seq::empty() }
    } else {
        lex_step(lex_state(text.drop_last()), text.last())
    }
}

/// The tokens of a text, in order.
pub open spec fn tokens_of(text: Seq<char>) -> Seq<Seq<char>> {
    lex_flush(lex_state(text))
}

/// A token that is a run of word characters.
pub open spec fn is_word(token: Seq<char>) -> bool {
    token.len() > 0 && forall|i: int| 0 <= i < token.len() ==> is_word_char(#[trigger] token[i])
}

/// A token that is one character, neither of a word nor whitespace.
pub open spec fn is_punctuation(token: Seq<char>) -> bool {
    token.len() == 1 && !is_word_char(token[0]) && !is_space(token[0])
}

/// The tokens put together.
pub open spec fn concat(tokens: Seq<Seq<char>>) -> Seq<char>
    decreases tokens.len(),
{
    if tokens.len() == 0 {
        Seq::empty()
    } else {
        concat(tokens.drop_last()) + tokens.last()
    }
}

/// A text without its whitespace.
pub open spec fn squeeze(text: Seq<char>) -> Seq<char>
    decreases text.len(),
{
    if text.len() == 0 {
        Seq::empty()
    } else if is_space(text.last()) {
        squeeze(text.drop_last())
    } else {
        squeeze(text.drop_last()).push(text.last())
    }
}

/// What holds of the lexer after every prefix of a text: the finished tokens
/// are words and punctuation, the growing word holds word characters only,
/// and together they hold the prefix without its whitespace.
pub proof fn lemma_lex_state(text: Seq<char>)
    ensures
        forall|k: int|
            0 <= k < lex_state(text).done.len() ==> is_word(#[trigger] lex_state(text).done[k])
                || is_punctuation(lex_state(text).done[k]),
        forall|i: int|
            0 <= i < lex_state(text).word.len() ==> is_word_char(
                #[trigger] lex_state(text).word[i],
            ),
        concat(lex_state(text).done) + lex_state(text).word == squeeze(text),
    decreases text.len(),
{
    if text.len() == 0 {
        assert(concat(lex_state(text).done) + lex_state(text).word =~= squeeze(text));
    } else {
        let before = lex_state(text.drop_last());
        let after = lex_state(text);
        let c = text.last();
        lemma_lex_state(text.drop_last());
        if is_word_char(c) {
            assert(concat(after.done) + after.word =~= (concat(before.done) + before.word).push(c));
        } else {
            let flushed = lex_flush(before);
            assert(concat(flushed) =~= concat(before.done) + before.word) by {
                if before.word.len() > 0 {
                    assert(flushed.drop_last() =~= before.done);
                }
            }
            assert forall|k: int| 0 <= k < flushed.len() implies is_word(#[trigger] flushed[k])
                || is_punctuation(flushed[k]) by {
                if k < before.done.len() {
                    assert(flushed[k] == before.done[k]);
                } else {
                    assert(flushed[k] == before.word);
                }
            }
            if is_space(c) {
                assert(concat(after.done) + after.word =~= concat(flushed));
            } else {
                assert(after.done.drop_last() =~= flushed);
                assert(concat(after.done) + after.word =~= concat(flushed).push(c));
                assert forall|k: int| 0 <= k < after.done.len() implies is_word(
                    #[trigger] after.done[k],
                ) || is_punctuation(after.done[k]) by {
                    if k < flushed.len() {
                        assert(after.done[k] == flushed[k]);
                    } else {
                        assert(after.done[k] == seq![c]);
                    }
                }
            }
        }
    }
}

/// Every token is a run of word characters or one character of punctuation,
/// and the tokens together are the text without its whitespace.
pub proof fn law_tokens_hold_the_text(text: Seq<char>)
    ensures
        forall|k: int|
            0 <= k < tokens_of(text).len() ==> is_word(#[trigger] tokens_of(text)[k])
                || is_punctuation(tokens_of(text)[k]),
        concat(tokens_of(text)) == squeeze(text),
{
    lemma_lex_state(text);
    let st = lex_state(text);
    if st.word.len() > 0 {
        assert(tokens_of(text).drop_last() =~= st.done);
        assert forall|k: int| 0 <= k < tokens_of(text).len() implies is_word(
            #[trigger] tokens_of(text)[k],
        ) || is_punctuation(tokens_of(text)[k]) by {
            if k < st.done.len() {
                assert(tokens_of(text)[k] == st.done[k]);
            } else {
                assert(tokens_of(text)[k] == st.word);
            }
        }
    } else {
        assert(concat(st.done) + st.word =~= concat(st.done));
    }
}

/// Whether a character is whitespace.
pub fn space(c: char) -> (r: bool)
    ensures
        r == is_space(c),
{
    c == ' ' || c == '\t' || c == '\n' || c == '\r'
}

/// Whether a character is a digit.
pub fn digit(c: char) -> (r: bool)
    ensures
        r == is_digit(c),
{
    '0' <= c && c <= '9'
}

/// Whether a character belongs to a word.
pub fn word_char(c: char) -> (r: bool)
    ensures
        r == is_word_char(c),
{
    c == '_' || digit(c) || ('a' <= c && c <= 'z') || ('A' <= c && c <= 'Z') || c > '\x7f'
}

/// Whether a token is an identifier.
pub fn identifier(token: &String) -> (r: bool)
    ensures
        r == is_identifier(token@),
{
    broadcast use vstd::string::group_string_axioms;

    let mut first = true;
    let mut ok = true;
    for c in it: token.as_str().chars()
        invariant
            it.seq() == token@,
            first == (it.index() == 0),
            ok == ((forall|i: int| 0 <= i < it.index() ==> is_word_char(#[trigger] token@[i]))
                && (it.index() > 0 ==> !is_digit(token@[0]))),
    {
        if !word_char(c) || (first && digit(c)) {
            ok = false;
        }
        first = false;
    }
    ok && !first
}

/// The characters of a text.
pub fn chars_of(text: &str) -> (r: Vec<char>)
    ensures
        r@ == text@,
{
    broadcast use vstd::string::group_string_axioms;

    let mut out: Vec<char> = Vec::new();
    for c in it: text.chars()
        invariant
            it.seq() == text@,
            out@ == it.seq().take(it.index()),
    {
        out.push(c);
    }
    out
}

/// Cuts a text into its tokens.
pub fn lex(text: &str) -> (tokens: Vec<String>)
    ensures
        tokens.deep_view() == tokens_of(text@),
{
    broadcast use vstd::string::group_string_axioms;

    let mut done: Vec<String> = Vec::new();
    let mut word = String::new();
    assert(done.deep_view() =~= Seq::<Seq<char>>::empty());
    for c in it: text.chars()
        invariant
            it.seq() == text@,
            lex_state(text@.take(it.index())) == (LexState { done: done.deep_view(), word: word@ }),
    {
        proof {
            assert(text@.take(it.index() + 1).drop_last() =~= text@.take(it.index()));
        }
        let ghost before = done.deep_view();
        if word_char(c) {
            word.push(c);
        } else {
            if !word.as_str().is_empty() {
                let ghost w = word@;
                done.push(word);
                word = String::new();
                assert(done.deep_view() =~= before.push(w));
            }
            if !space(c) {
                let ghost flushed = done.deep_view();
                let mut punct = String::new();
                punct.push(c);
                done.push(punct);
                assert(done.deep_view() =~= flushed.push(seq![c]));
            }
        }
    }
    assert(text@.take(text@.len() as int) =~= text@);
    if !word.as_str().is_empty() {
        let ghost before = done.deep_view();
        let ghost w = word@;
        done.push(word);
        assert(done.deep_view() =~= before.push(w));
    }
    done
}

/// Whether a string holds exactly the given text.
pub fn text_is(token: &String, text: &str) -> (r: bool)
    ensures
        r == (token@ == text@),
{
    *token == text.to_owned()
}

/// Whether a list of strings holds the given one.
pub fn contains_text(texts: &Vec<String>, text: &String) -> (r: bool)
    ensures
        r == texts.deep_view().contains(text@),
{
    let mut i: usize = 0;
    while i < texts.len()
        invariant
            i <= texts.len(),
            forall|k: int| 0 <= k < i ==> texts.deep_view()[k] != text@,
        decreases texts.len() - i,
    {
        if texts[i] == *text {
            assert(texts.deep_view()[i as int] == text@);
            return true;
        }
        i += 1;
    }
    false
}

/// A copy of a list of strings.
pub fn copy_texts(texts: &Vec<String>) -> (r: Vec<String>)
    ensures
        r.deep_view() == texts.deep_view(),
{
    let mut out: Vec<String> = Vec::new();
    let mut i: usize = 0;
    while i < texts.len()
        invariant
            i <= texts.len(),
            out.len() == i,
            forall|k: int| 0 <= k < i ==> out@[k]@ == texts@[k]@,
        decreases texts.len() - i,
    {
        out.push(texts[i].clone());
        i += 1;
    }
    assert(out.deep_view() =~= texts.deep_view());
    out
}

} // verus!
