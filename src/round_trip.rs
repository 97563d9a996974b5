use vstd::prelude::*;
use crate::classify::{all_digits, classify, digit_value, digits_value, is_digit, is_ident_start, is_numeral};
use crate::lex::{classify_all, lex_spec};
use crate::segment::{
    all_space, flush, is_word_char, lemma_boundary, lemma_skip_spaces, lemma_take_word, split_from,
};
use crate::token::{Failure, Token, is_punct, is_space, keyword_token};

verus! {

pub open spec fn is_punct_token(t: Token) -> bool {
    ||| t is OpenBrace
    ||| t is CloseBrace
    ||| t is OpenParenthesis
    ||| t is CloseParenthesis
    ||| t is Semicolon
}

/// A token that can be written in source text: an identifier is a word that
/// starts like one and is no keyword; an integer literal is not negative.
pub open spec fn is_writable(t: Token) -> bool {
    match t {
        Token::Identifier(name) => {
            &&& name.len() > 0
            &&& is_ident_start(name[0])
            &&& forall|i: int| 0 <= i < name.len() ==> is_word_char(#[trigger] name[i])
            &&& keyword_token(name) is None
        },
        Token::IntegerLiteral(v) => v >= 0,
        _ => true,
    }
}

pub open spec fn digit_char(d: nat) -> char {
    if d == 0 { '0' }
    else if d == 1 { '1' }
    else if d == 2 { '2' }
    else if d == 3 { '3' }
    else if d == 4 { '4' }
    else if d == 5 { '5' }
    else if d == 6 { '6' }
    else if d == 7 { '7' }
    else if d == 8 { '8' }
    else { '9' }
}

/// The decimal numeral of `n`, without leading zeros.
pub open spec fn decimal(n: nat) -> Seq<char>
    decreases n,
{
    if n < 10 {
        seq![digit_char(n)]
    } else {
        decimal(n / 10).push(digit_char(n % 10))
    }
}

/// How a token is written in source text.
pub open spec fn spelling(t: Token) -> Seq<char> {
    match t {
        Token::OpenBrace => seq!['{'],
        Token::CloseBrace => seq!['}'],
        Token::OpenParenthesis => seq!['('],
        Token::CloseParenthesis => seq![')'],
        Token::Semicolon => seq![';'],
        Token::IntKeyword => seq!['i', 'n', 't'],
        Token::ReturnKeyword => seq!['r', 'e', 't', 'u', 'r', 'n'],
        Token::Identifier(name) => name,
        Token::IntegerLiteral(v) => decimal(v as nat),
    }
}

pub open spec fn spellings(toks: Seq<Token>) -> Seq<Seq<char>> {
    toks.map_values(|t: Token| spelling(t))
}

/// The text `seps[0] toks[0] seps[1] toks[1] ... toks[n-1] seps[n]`.
pub open spec fn render(toks: Seq<Token>, seps: Seq<Seq<char>>) -> Seq<char>
    decreases toks.len(),
{
    if toks.len() == 0 || seps.len() == 0 {
        if seps.len() == 0 { seq![] } else { seps[0] }
    } else {
        seps[0] + spelling(toks[0]) + render(toks.drop_first(), seps.drop_first())
    }
}

/// Each separator is a run of whitespace, and two adjacent tokens that are
/// both words have at least one whitespace character between them.
pub open spec fn separates(toks: Seq<Token>, seps: Seq<Seq<char>>) -> bool {
    &&& seps.len() == toks.len() + 1
    &&& forall|i: int| 0 <= i < seps.len() ==> all_space(#[trigger] seps[i])
    &&& forall|i: int|
        0 < i < toks.len() ==> (#[trigger] seps[i]).len() > 0 || is_punct_token(toks[i - 1])
            || is_punct_token(toks[i])
}

proof fn lemma_digit_char(d: nat)
    requires
        d < 10,
    ensures
        is_digit(digit_char(d)),
        digit_value(digit_char(d)) == d,
{
}

proof fn lemma_decimal(n: nat)
    ensures
        is_numeral(decimal(n)),
        digits_value(decimal(n)) == n,
    decreases n,
{
    if n < 10 {
        lemma_digit_char(n);
        assert(decimal(n).drop_last() =~= seq![]);
        assert(digits_value(decimal(n).drop_last()) == 0);
    } else {
        lemma_decimal(n / 10);
        lemma_digit_char(n % 10);
        let d = decimal(n);
        assert(d.drop_last() =~= decimal(n / 10));
        assert(d.last() == digit_char(n % 10));
        assert((n / 10) * 10 + n % 10 == n) by (nonlinear_arith);
        assert(all_digits(d)) by {
            assert forall|i: int| 0 <= i < d.len() implies is_digit(#[trigger] d[i]) by {
                if i < d.len() - 1 {
                    assert(d[i] == decimal(n / 10)[i]);
                }
            }
        }
    }
}

proof fn lemma_classify_spelling(t: Token)
    requires
        is_writable(t),
    ensures
        classify(spelling(t)) == Ok::<Token, Failure>(t),
{
    match t {
        Token::IntegerLiteral(v) => {
            let w = decimal(v as nat);
            lemma_decimal(v as nat);
            assert(is_digit(w[0]));
            assert(w != seq!['i', 'n', 't']);
            assert(w != seq!['r', 'e', 't', 'u', 'r', 'n']);
        },
        Token::Identifier(name) => {
            assert(is_word_char(name[0]));
        },
        Token::IntKeyword => {
            assert(seq!['i', 'n', 't'].len() == 3);
        },
        Token::ReturnKeyword => {
            assert(seq!['r', 'e', 't', 'u', 'r', 'n'] != seq!['i', 'n', 't']);
        },
        _ => {},
    }
}

proof fn lemma_classify_all_spellings(toks: Seq<Token>)
    requires
        forall|i: int| 0 <= i < toks.len() ==> is_writable(#[trigger] toks[i]),
    ensures
        classify_all(spellings(toks)) == Ok::<Seq<Token>, Failure>(toks),
    decreases toks.len(),
{
    if toks.len() > 0 {
        let p = toks.drop_last();
        assert forall|i: int| 0 <= i < p.len() implies is_writable(#[trigger] p[i]) by {
            assert(p[i] == toks[i]);
        }
        assert(is_writable(toks[toks.len() - 1]));
        lemma_classify_all_spellings(p);
        lemma_classify_spelling(toks.last());
        let ws = spellings(toks);
        assert(ws.len() > 0);
        assert(spellings(toks).drop_last() =~= spellings(p));
        assert(spellings(toks).last() == spelling(toks.last()));
        assert(classify_all(ws.drop_last()) == Ok::<Seq<Token>, Failure>(p));
        assert(classify(ws.last()) == Ok::<Token, Failure>(toks.last()));
        assert(classify_all(ws) == Ok::<Seq<Token>, Failure>(p.push(toks.last())));
        assert(p.push(toks.last()) =~= toks);
    } else {
        assert(spellings(toks) =~= seq![]);
        assert(toks =~= seq![]);
    }
}

proof fn lemma_render_starts_at_boundary(toks: Seq<Token>, seps: Seq<Seq<char>>)
    requires
        separates(toks, seps),
        seps[0].len() > 0 || toks.len() == 0 || is_punct_token(toks[0]),
    ensures
        ({
            let r = render(toks, seps);
            r.len() == 0 || is_space(r[0]) || is_punct(r[0])
        }),
{
    let r = render(toks, seps);
    if toks.len() > 0 {
        if seps[0].len() > 0 {
            assert(r[0] == seps[0][0]);
        } else {
            assert(r[0] == spelling(toks[0])[0]);
        }
    } else if seps[0].len() > 0 {
        assert(r[0] == seps[0][0]);
    }
}

proof fn lemma_segment_render(toks: Seq<Token>, seps: Seq<Seq<char>>)
    requires
        separates(toks, seps),
        forall|i: int| 0 <= i < toks.len() ==> is_writable(#[trigger] toks[i]),
    ensures
        split_from(render(toks, seps), seq![]) == spellings(toks),
    decreases toks.len(),
{
    assert(all_space(seps[0]));
    if toks.len() == 0 {
        lemma_skip_spaces(seps[0], seq![]);
        assert(seps[0] + seq![] =~= seps[0]);
        assert(spellings(toks) =~= seq![]);
    } else {
        let t = toks[0];
        let rest = toks.drop_first();
        let rest_seps = seps.drop_first();
        let r = render(rest, rest_seps);
        let w = spelling(t);
        assert(separates(rest, rest_seps)) by {
            assert forall|i: int| 0 <= i < rest_seps.len() implies all_space(
                #[trigger] rest_seps[i],
            ) by {
                assert(rest_seps[i] == seps[i + 1]);
            }
            assert forall|i: int| 0 < i < rest.len() implies (#[trigger] rest_seps[i]).len() > 0
                || is_punct_token(rest[i - 1]) || is_punct_token(rest[i]) by {
                assert(rest_seps[i] == seps[i + 1]);
            }
        }
        assert forall|i: int| 0 <= i < rest.len() implies is_writable(#[trigger] rest[i]) by {
            assert(rest[i] == toks[i + 1]);
        }
        lemma_segment_render(rest, rest_seps);
        assert(render(toks, seps) =~= seps[0] + (w + r));
        lemma_skip_spaces(seps[0], w + r);
        assert(spellings(toks) =~= seq![w] + spellings(rest));
        if is_punct_token(t) {
            assert(w.len() == 1 && is_punct(w[0]));
            assert(w =~= seq![w[0]]);
            assert((w + r)[0] == w[0]);
            assert((w + r).drop_first() =~= r);
            assert(flush(seq![]) =~= seq![]);
            assert(seq![] + seq![seq![w[0]]] + spellings(rest) =~= seq![w] + spellings(rest));
        } else {
            assert(w.len() > 0 && forall|i: int| 0 <= i < w.len() ==> is_word_char(#[trigger] w[i]))
                by {
                if let Token::IntegerLiteral(v) = t {
                    lemma_decimal(v as nat);
                }
            }
            lemma_take_word(w, r, seq![]);
            assert(seq![] + w =~= w);
            assert(rest_seps[0] == seps[1]);
            lemma_render_starts_at_boundary(rest, rest_seps);
            lemma_boundary(r, w);
        }
    }
}

/// Text made of writable tokens, separated by runs of whitespace wherever two
/// words meet, tokenizes back to exactly those tokens, in the same order.
pub proof fn lemma_round_trip(toks: Seq<Token>, seps: Seq<Seq<char>>)
    requires
        forall|i: int| 0 <= i < toks.len() ==> is_writable(#[trigger] toks[i]),
        separates(toks, seps),
    ensures
        lex_spec(render(toks, seps)) == Ok::<Seq<Token>, Failure>(toks),
{
    lemma_segment_render(toks, seps);
    lemma_classify_all_spellings(toks);
}

} // verus!
