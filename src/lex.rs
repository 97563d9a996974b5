use vstd::prelude::*;
use crate::classify::{classify, recognize_token};
use crate::segment::{all_space, lemma_whitespace_only, segment, split_tokens, strings_view};
use crate::token::{Failure, LexError, Token, TokenKind, token_result_view, tokens_result_view, tokens_view};

verus! {

/// The tokens of a sequence of raw words, or the failure of the leftmost word
/// that does not classify.
pub open spec fn classify_all(words: Seq<Seq<char>>) -> Result<Seq<Token>, Failure>
    decreases words.len(),
{
    if words.len() == 0 {
        Ok(seq![])
    } else {
        match classify_all(words.drop_last()) {
            Err(e) => Err(e),
            Ok(ts) => match classify(words.last()) {
                Err(e) => Err(e),
                Ok(t) => Ok(ts.push(t)),
            },
        }
    }
}

/// What tokenizing a source text yields.
pub open spec fn lex_spec(text: Seq<char>) -> Result<Seq<Token>, Failure> {
    classify_all(segment(text))
}

/// Once a prefix fails, every extension of it fails the same way.
pub proof fn lemma_classify_all_error_extends(p: Seq<Seq<char>>, q: Seq<Seq<char>>)
    requires
        classify_all(p) is Err,
    ensures
        classify_all(p + q) == classify_all(p),
    decreases q.len(),
{
    if q.len() > 0 {
        lemma_classify_all_error_extends(p, q.drop_last());
        assert((p + q).drop_last() =~= p + q.drop_last());
    } else {
        assert(p + q =~= p);
    }
}

/// Classifies each raw word in order, stopping at the first that does not classify.
pub fn recognize_tokens(raw_tokens: &Vec<String>) -> (r: Result<Vec<TokenKind>, LexError>)
    ensures
        tokens_result_view(r) == classify_all(strings_view(raw_tokens@)),
{
    let ghost words = strings_view(raw_tokens@);
    let mut tokens: Vec<TokenKind> = Vec::new();
    let mut i: usize = 0;
    assert(words.take(0) =~= seq![]);
    assert(tokens_view(tokens@) =~= seq![]);
    while i < raw_tokens.len()
        invariant
            words == strings_view(raw_tokens@),
            i <= raw_tokens@.len(),
            classify_all(words.take(i as int)) == Ok::<Seq<Token>, Failure>(tokens_view(tokens@)),
        decreases raw_tokens@.len() - i,
    {
        let token = recognize_token(&raw_tokens[i]);
        assert(words.take(i + 1).drop_last() =~= words.take(i as int));
        assert(words.take(i + 1).last() == raw_tokens@[i as int]@);
        match token {
            Ok(t) => {
                tokens.push(t);
                assert(tokens_view(tokens@) =~= classify_all(words.take(i as int))->Ok_0.push(t@));
            },
            Err(e) => {
                proof {
                    lemma_classify_all_error_extends(words.take(i + 1), words.skip(i + 1));
                    assert(words.take(i + 1) + words.skip(i + 1) =~= words);
                }
                return Err(e);
            },
        }
        i = i + 1;
    }
    assert(words.take(i as int) =~= words);
    Ok(tokens)
}

/// Tokenizes a whole source text: its tokens in order of appearance, or the
/// failure of its leftmost raw word that does not classify.
pub fn lex(text: String) -> (r: Result<Vec<TokenKind>, LexError>)
    ensures
        tokens_result_view(r) == lex_spec(text@),
{
    let raw_tokens = split_tokens(&text);
    recognize_tokens(&raw_tokens)
}

/// Text made of whitespace alone tokenizes to no tokens at all.
pub proof fn lemma_lex_whitespace_only(s: Seq<char>)
    requires
        all_space(s),
    ensures
        lex_spec(s) == Ok::<Seq<Token>, Failure>(seq![]),
{
    lemma_whitespace_only(s);
}

/// Classification is a function of the word alone: two results obtained for
/// words with the same characters are the same.
pub proof fn lemma_classification_is_deterministic(
    a: &String,
    b: &String,
    ra: Result<TokenKind, LexError>,
    rb: Result<TokenKind, LexError>,
)
    requires
        a@ == b@,
        token_result_view(ra) == classify(a@),
        token_result_view(rb) == classify(b@),
    ensures
        token_result_view(ra) == token_result_view(rb),
{
}

} // verus!
