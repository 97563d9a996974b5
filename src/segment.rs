use vstd::prelude::*;
use crate::token::{is_punct, is_space, punctuation};

verus! {

/// Relies on std's `String::push`: appends the given char to the end of the string.
pub assume_specification[ String::push ](s: &mut String, ch: char)
    ensures
        final(s)@ == old(s)@.push(ch),
;

/// The pending word, emitted only when it is non-empty.
pub open spec fn flush(acc: Seq<char>) -> Seq<Seq<char>> {
    if acc.len() == 0 {
        seq![]
    } else {
        seq![acc]
    }
}

/// The raw words of `s`, given the characters `acc` of a word already begun:
/// whitespace ends a word and is dropped, punctuation ends a word and is a word
/// of its own, every other character extends the pending word.
pub open spec fn split_from(s: Seq<char>, acc: Seq<char>) -> Seq<Seq<char>>
    decreases s.len(),
{
    if s.len() == 0 {
        flush(acc)
    } else if is_space(s[0]) {
        flush(acc) + split_from(s.drop_first(), seq![])
    } else if is_punct(s[0]) {
        flush(acc) + seq![seq![s[0]]] + split_from(s.drop_first(), seq![])
    } else {
        split_from(s.drop_first(), acc.push(s[0]))
    }
}

/// The raw words of a source text, left to right.
pub open spec fn segment(s: Seq<char>) -> Seq<Seq<char>> {
    split_from(s, seq![])
}

pub open spec fn is_word_char(c: char) -> bool {
    !is_space(c) && !is_punct(c)
}

pub open spec fn all_space(s: Seq<char>) -> bool {
    forall|i: int| 0 <= i < s.len() ==> is_space(#[trigger] s[i])
}

pub open spec fn strings_view(v: Seq<String>) -> Seq<Seq<char>> {
    v.map_values(|w: String| w@)
}

/// Leading whitespace contributes no raw word.
pub proof fn lemma_skip_spaces(ws: Seq<char>, x: Seq<char>)
    requires
        all_space(ws),
    ensures
        split_from(ws + x, seq![]) == split_from(x, seq![]),
    decreases ws.len(),
{
    if ws.len() > 0 {
        assert((ws + x)[0] == ws[0]);
        assert((ws + x).drop_first() =~= ws.drop_first() + x);
        assert(flush(seq![]) =~= seq![]);
        assert(seq![] + split_from(ws.drop_first() + x, seq![]) =~= split_from(
            ws.drop_first() + x,
            seq![],
        ));
        lemma_skip_spaces(ws.drop_first(), x);
    } else {
        assert(ws + x =~= x);
    }
}

/// A run of word characters joins the pending word.
pub proof fn lemma_take_word(w: Seq<char>, x: Seq<char>, acc: Seq<char>)
    requires
        forall|i: int| 0 <= i < w.len() ==> is_word_char(#[trigger] w[i]),
    ensures
        split_from(w + x, acc) == split_from(x, acc + w),
    decreases w.len(),
{
    if w.len() > 0 {
        assert((w + x)[0] == w[0]);
        assert((w + x).drop_first() =~= w.drop_first() + x);
        assert(acc.push(w[0]) + w.drop_first() =~= acc + w);
        lemma_take_word(w.drop_first(), x, acc.push(w[0]));
    } else {
        assert(w + x =~= x);
        assert(acc + w =~= acc);
    }
}

/// At a boundary (end of text, whitespace or punctuation) the pending word is emitted.
pub proof fn lemma_boundary(r: Seq<char>, acc: Seq<char>)
    requires
        r.len() == 0 || is_space(r[0]) || is_punct(r[0]),
    ensures
        split_from(r, acc) == flush(acc) + split_from(r, seq![]),
{
    assert(flush(seq![]) =~= seq![]);
    if r.len() == 0 {
        assert(flush(acc) + seq![] =~= flush(acc));
    } else if is_space(r[0]) {
        assert(seq![] + split_from(r.drop_first(), seq![]) =~= split_from(r.drop_first(), seq![]));
    } else {
        let tail = seq![seq![r[0]]] + split_from(r.drop_first(), seq![]);
        assert(seq![] + seq![seq![r[0]]] =~= seq![seq![r[0]]]);
        assert(flush(acc) + seq![seq![r[0]]] + split_from(r.drop_first(), seq![]) =~= flush(acc)
            + tail);
    }
}

/// A non-empty run of characters that are neither whitespace nor punctuation is
/// a single raw word: it is never split, whatever its prefixes spell.
pub proof fn lemma_maximal_munch(w: Seq<char>)
    requires
        w.len() > 0,
        forall|i: int| 0 <= i < w.len() ==> is_word_char(#[trigger] w[i]),
    ensures
        segment(w) == seq![w],
{
    lemma_take_word(w, seq![], seq![]);
    assert(w + seq![] =~= w);
    assert(seq![] + w =~= w);
}

/// A punctuation character between two words always breaks them apart, and is
/// a raw word of its own.
pub proof fn lemma_punctuation_breaks(a: Seq<char>, p: char, b: Seq<char>)
    requires
        a.len() > 0,
        b.len() > 0,
        forall|i: int| 0 <= i < a.len() ==> is_word_char(#[trigger] a[i]),
        forall|i: int| 0 <= i < b.len() ==> is_word_char(#[trigger] b[i]),
        is_punct(p),
    ensures
        segment(a + seq![p] + b) == seq![a, seq![p], b],
{
    let rest = seq![p] + b;
    assert(a + seq![p] + b =~= a + rest);
    lemma_take_word(a, rest, seq![]);
    assert(seq![] + a =~= a);
    lemma_boundary(rest, a);
    assert(rest[0] == p);
    assert(rest.drop_first() =~= b);
    lemma_maximal_munch(b);
    assert(flush(seq![]) =~= seq![]);
    assert(flush(a) + (seq![] + seq![seq![p]] + seq![b]) =~= seq![a, seq![p], b]);
}

/// Text made of whitespace alone has no raw words.
pub proof fn lemma_whitespace_only(s: Seq<char>)
    requires
        all_space(s),
    ensures
        segment(s) == Seq::<Seq<char>>::empty(),
{
    lemma_skip_spaces(s, seq![]);
    assert(s + seq![] =~= s);
    assert(flush(seq![]) =~= seq![]);
}

pub fn is_whitespace(c: &char) -> (r: bool)
    ensures
        r == is_space(*c),
{
    *c == ' ' || *c == '\t' || *c == '\n'
}

pub fn is_basic_char(c: &char) -> (r: bool)
    ensures
        r == is_punct(*c),
{
    punctuation(*c).is_some()
}

/// Splits a source text into its raw words.
pub fn split_tokens(text: &String) -> (words: Vec<String>)
    ensures
        strings_view(words@) == segment(text@),
{
    let mut words: Vec<String> = Vec::new();
    let mut word = String::new();
    assert(text@.skip(0) =~= text@);
    assert(strings_view(words@) =~= seq![]);
    assert(strings_view(words@) + split_from(text@, word@) =~= segment(text@));
    for c in it: text.as_str().chars()
        invariant
            it.seq() == text@,
            0 <= it.index() <= text@.len(),
            strings_view(words@) + split_from(text@.skip(it.index()), word@) == segment(text@),
    {
        let ghost rest = text@.skip(it.index());
        let ghost before = strings_view(words@);
        let ghost pending = word@;
        assert(rest[0] == c && rest.drop_first() =~= text@.skip(it.index() + 1));
        let white = is_whitespace(&c);
        let basic = is_basic_char(&c);
        if white || basic {
            if !word.as_str().is_empty() {
                words.push(word);
                word = String::new();
            }
            assert(word@ =~= seq![]);
            assert(strings_view(words@) =~= before + flush(pending));
            if basic {
                let mut single = String::new();
                single.push(c);
                words.push(single);
                assert(strings_view(words@) =~= before + flush(pending) + seq![seq![c]]);
                assert(split_from(rest, pending) == flush(pending) + seq![seq![c]] + split_from(
                    rest.drop_first(),
                    seq![],
                ));
            } else {
                assert(split_from(rest, pending) == flush(pending) + split_from(
                    rest.drop_first(),
                    seq![],
                ));
            }
            assert(before + split_from(rest, pending) =~= strings_view(words@) + split_from(
                rest.drop_first(),
                word@,
            ));
        } else {
            word.push(c);
            assert(split_from(rest, pending) == split_from(rest.drop_first(), word@));
        }
    }
    assert(text@.skip(text@.len() as int) =~= seq![]);
    let ghost before = strings_view(words@);
    if !word.as_str().is_empty() {
        words.push(word);
        assert(strings_view(words@) =~= before + seq![word@]);
    }
    words
}

} // verus!
