//! What the tokens of a text promise.

use vstd::prelude::*;
use vstd::utf8::encode_scalar;
use vstd::utf8::encode_utf8;

use crate::analysis::alphanumeric_runs;
use crate::analysis::analyzer_tokens;
use crate::analysis::lower;
use crate::analysis::lower_words;
use crate::analysis::lowered;
use crate::analysis::ngrams_from;
use crate::analysis::possible;
use crate::analysis::short_words;
use crate::analysis::usable;
use crate::config::Language;
use crate::config::TextAnalysis;
use crate::config::TokenizerMode;
use crate::text::alphanumeric;

verus! {

/// Whether two texts only differ in upper and lower case.
pub open spec fn same_but_case(a: Seq<char>, b: Seq<char>) -> bool {
    &&& a.len() == b.len()
    &&& forall|i: int| 0 <= i < a.len() ==> lower(#[trigger] a[i]) == lower(b[i])
}

/// Whether the characters of two texts are alike in all but their case: they
/// separate words in the same places, and take as many bytes.
pub open spec fn same_words(a: Seq<char>, b: Seq<char>) -> bool {
    &&& same_but_case(a, b)
    &&& forall|i: int|
        0 <= i < a.len() ==> alphanumeric(#[trigger] a[i]) == alphanumeric(b[i]) && encode_scalar(
            a[i] as u32,
        ).len() == encode_scalar(b[i] as u32).len()
}

proof fn lemma_lowered_same(a: Seq<char>, b: Seq<char>)
    requires
        same_but_case(a, b),
    ensures
        lowered(a) == lowered(b),
    decreases a.len(),
{
    if a.len() > 0 {
        assert(same_but_case(a.drop_last(), b.drop_last())) by {
            assert forall|i: int| 0 <= i < a.len() - 1 implies lower(#[trigger] a.drop_last()[i])
                == lower(b.drop_last()[i]) by {
                assert(lower(a[i]) == lower(b[i]));
            }
        }
        lemma_lowered_same(a.drop_last(), b.drop_last());
        assert(lower(a[a.len() - 1]) == lower(b[b.len() - 1]));
    }
}

proof fn lemma_ngrams_same(
    a: Seq<char>,
    b: Seq<char>,
    min_gram: usize,
    max_gram: usize,
    i: int,
)
    requires
        same_but_case(a, b),
        0 <= i,
    ensures
        ngrams_from(a, min_gram, max_gram, i) == ngrams_from(b, min_gram, max_gram, i),
    decreases a.len() - i,
{
    if i < a.len() {
        lemma_ngrams_same(a, b, min_gram, max_gram, i + 1);
        let longest = if a.len() - i < max_gram {
            a.len() - i
        } else {
            max_gram as int
        };
        assert forall|k: int| 0 <= k && i + min_gram + k <= a.len() implies lowered(
            #[trigger] a.subrange(i, i + min_gram + k),
        ) == lowered(b.subrange(i, i + min_gram + k)) by {
            let x = a.subrange(i, i + min_gram + k);
            let y = b.subrange(i, i + min_gram + k);
            assert forall|j: int| 0 <= j < x.len() implies lower(#[trigger] x[j]) == lower(
                y[j],
            ) by {
                assert(lower(a[i + j]) == lower(b[i + j]));
            }
            lemma_lowered_same(x, y);
        }
        assert(min_gram <= longest ==> i + longest <= a.len());
        assert(ngrams_from(a, min_gram, max_gram, i) =~= ngrams_from(b, min_gram, max_gram, i));
    }
}

/// N-grams ignore case: texts that only differ in case have the same tokens.
pub proof fn law_ngrams_ignore_case(
    min_gram: usize,
    max_gram: usize,
    a: Seq<char>,
    b: Seq<char>,
)
    requires
        same_but_case(a, b),
    ensures
        analyzer_tokens(TextAnalysis::Ngrams { min_gram, max_gram }, a) == analyzer_tokens(
            TextAnalysis::Ngrams { min_gram, max_gram },
            b,
        ),
{
    lemma_ngrams_same(a, b, min_gram, max_gram, 0);
}

proof fn lemma_same_width(a: Seq<char>, b: Seq<char>)
    requires
        same_words(a, b),
    ensures
        encode_utf8(a).len() == encode_utf8(b).len(),
    decreases a.len(),
{
    if a.len() > 0 {
        let x = a.drop_first();
        let y = b.drop_first();
        assert(same_words(x, y)) by {
            assert forall|i: int| 0 <= i < x.len() implies lower(#[trigger] x[i]) == lower(y[i])
                && alphanumeric(x[i]) == alphanumeric(y[i]) && encode_scalar(x[i] as u32).len()
                == encode_scalar(y[i] as u32).len() by {
                assert(lower(a[i + 1]) == lower(b[i + 1]));
            }
        }
        lemma_same_width(x, y);
        assert(encode_scalar(a[0] as u32).len() == encode_scalar(b[0] as u32).len());
    }
}

/// Whether two lists of words are alike in all but their case.
spec fn all_same_words(x: Seq<Seq<char>>, y: Seq<Seq<char>>) -> bool {
    &&& x.len() == y.len()
    &&& forall|i: int| 0 <= i < x.len() ==> same_words(#[trigger] x[i], y[i])
}

proof fn lemma_runs_same(a: Seq<char>, b: Seq<char>)
    requires
        same_words(a, b),
    ensures
        all_same_words(alphanumeric_runs(a), alphanumeric_runs(b)),
        a.len() > 0 && alphanumeric(a.last()) ==> alphanumeric_runs(a).len() > 0,
    decreases a.len(),
{
    if a.len() > 0 {
        let before_a = a.drop_last();
        let before_b = b.drop_last();
        assert(same_words(before_a, before_b)) by {
            assert forall|i: int| 0 <= i < before_a.len() implies lower(#[trigger] before_a[i])
                == lower(before_b[i]) && alphanumeric(before_a[i]) == alphanumeric(before_b[i])
                && encode_scalar(before_a[i] as u32).len() == encode_scalar(
                before_b[i] as u32,
            ).len() by {
                assert(lower(a[i]) == lower(b[i]));
            }
        }
        lemma_runs_same(before_a, before_b);
        let n = a.len() - 1;
        assert(lower(a[n]) == lower(b[n]) && alphanumeric(a[n]) == alphanumeric(b[n]));
        let x = alphanumeric_runs(before_a);
        let y = alphanumeric_runs(before_b);
        if alphanumeric(a[n]) {
            if n > 0 && alphanumeric(a[n - 1]) {
                assert(alphanumeric(a[n - 1]) == alphanumeric(b[n - 1]));
                assert(before_a.last() == a[n - 1]);
                let u = x.last();
                let v = y.last();
                assert(same_words(x[x.len() - 1], y[y.len() - 1]));
                assert(same_words(u.push(a[n]), v.push(b[n]))) by {
                    assert forall|i: int| 0 <= i < u.len() + 1 implies {
                        let c = #[trigger] u.push(a[n])[i];
                        let d = v.push(b[n])[i];
                        lower(c) == lower(d) && alphanumeric(c) == alphanumeric(d)
                            && encode_scalar(c as u32).len() == encode_scalar(d as u32).len()
                    } by {
                        if i < u.len() {
                            assert(lower(u[i]) == lower(v[i]));
                        }
                    }
                }
            } else {
                if n > 0 {
                    assert(alphanumeric(a[n - 1]) == alphanumeric(b[n - 1]));
                }
                assert(same_words(seq![a[n]], seq![b[n]]));
            }
        }
    }
}

proof fn lemma_short_same(x: Seq<Seq<char>>, y: Seq<Seq<char>>, limit: usize)
    requires
        all_same_words(x, y),
    ensures
        all_same_words(short_words(x, limit), short_words(y, limit)),
    decreases x.len(),
{
    if x.len() > 0 {
        assert(all_same_words(x.drop_last(), y.drop_last())) by {
            assert forall|i: int| 0 <= i < x.len() - 1 implies same_words(
                #[trigger] x.drop_last()[i],
                y.drop_last()[i],
            ) by {
                assert(same_words(x[i], y[i]));
            }
        }
        lemma_short_same(x.drop_last(), y.drop_last(), limit);
        assert(same_words(x[x.len() - 1], y[y.len() - 1]));
        lemma_same_width(x.last(), y.last());
    }
}

/// Words ignore case, with and without stems: texts that only differ in case
/// have the same tokens.
pub proof fn law_words_ignore_case(analysis: TextAnalysis, a: Seq<char>, b: Seq<char>)
    requires
        analysis is Words || analysis is Stemmed,
        same_words(a, b),
    ensures
        analyzer_tokens(analysis, a) == analyzer_tokens(analysis, b),
{
    let limit = match analysis {
        TextAnalysis::Words { limit } => limit,
        TextAnalysis::Stemmed { limit, .. } => limit,
        TextAnalysis::Ngrams { min_gram, .. } => min_gram,
    };
    lemma_runs_same(a, b);
    let x = alphanumeric_runs(a);
    let y = alphanumeric_runs(b);
    lemma_short_same(x, y, limit);
    let u = short_words(x, limit);
    let v = short_words(y, limit);
    assert forall|i: int| 0 <= i < u.len() implies lowered(#[trigger] u[i]) == lowered(v[i]) by {
        assert(same_words(u[i], v[i]));
        lemma_lowered_same(u[i], v[i]);
    }
    assert(lower_words(a, limit) =~= lower_words(b, limit));
}

/// Whether a token is the part of `length` characters of a text behind the
/// first `i`, in lower case.
pub open spec fn is_part(token: Seq<char>, text: Seq<char>, i: int, length: int) -> bool {
    &&& 0 <= i
    &&& i + length <= text.len()
    &&& token == lowered(text.subrange(i, i + length))
}

proof fn lemma_part_is_ngram(
    text: Seq<char>,
    min_gram: usize,
    max_gram: usize,
    from: int,
    i: int,
    length: int,
)
    requires
        0 <= from <= i,
        0 < min_gram <= length <= max_gram,
        i + length <= text.len(),
    ensures
        ngrams_from(text, min_gram, max_gram, from).contains(
            lowered(text.subrange(i, i + length)),
        ),
    decreases i - from,
{
    let all = ngrams_from(text, min_gram, max_gram, from);
    let rest = ngrams_from(text, min_gram, max_gram, from + 1);
    let token = lowered(text.subrange(i, i + length));
    if from < i {
        lemma_part_is_ngram(text, min_gram, max_gram, from + 1, i, length);
        let k = choose|k: int| 0 <= k < rest.len() && rest[k] == token;
        assert(all[all.len() - rest.len() + k] == token);
    } else {
        assert(all[length - min_gram] == token);
    }
}

proof fn lemma_ngram_is_part(
    text: Seq<char>,
    min_gram: usize,
    max_gram: usize,
    from: int,
    token: Seq<char>,
) -> (at: (int, int))
    requires
        0 <= from,
        ngrams_from(text, min_gram, max_gram, from).contains(token),
    ensures
        min_gram <= at.1 <= max_gram,
        is_part(token, text, at.0, at.1),
    decreases text.len() - from,
{
    let all = ngrams_from(text, min_gram, max_gram, from);
    let rest = ngrams_from(text, min_gram, max_gram, from + 1);
    let k = choose|k: int| 0 <= k < all.len() && all[k] == token;
    let here = all.len() - rest.len();
    if k < here {
        (from, min_gram + k)
    } else {
        assert(rest[k - here] == token);
        lemma_ngram_is_part(text, min_gram, max_gram, from + 1, token)
    }
}

/// The n-grams of a text are its parts of the given sizes, in lower case, and
/// nothing else.
pub proof fn law_ngrams_are_the_parts(
    min_gram: usize,
    max_gram: usize,
    text: Seq<char>,
    token: Seq<char>,
)
    requires
        0 < min_gram,
    ensures
        analyzer_tokens(TextAnalysis::Ngrams { min_gram, max_gram }, text).contains(token)
            <==> exists|i: int, length: int|
            min_gram <= length <= max_gram && #[trigger] is_part(token, text, i, length),
{
    let tokens = analyzer_tokens(TextAnalysis::Ngrams { min_gram, max_gram }, text);
    if tokens.contains(token) {
        let at = lemma_ngram_is_part(text, min_gram, max_gram, 0, token);
        assert(is_part(token, text, at.0, at.1));
    }
    if exists|i: int, length: int|
        min_gram <= length <= max_gram && #[trigger] is_part(token, text, i, length) {
        let (i, length) = choose|i: int, length: int|
            min_gram <= length <= max_gram && #[trigger] is_part(token, text, i, length);
        lemma_part_is_ngram(text, min_gram, max_gram, 0, i, length);
    }
}

/// A text has n-grams if and only if it is long enough for the shortest one.
pub proof fn law_ngrams_of_long_texts(min_gram: usize, max_gram: usize, text: Seq<char>)
    requires
        0 < min_gram <= max_gram,
    ensures
        analyzer_tokens(TextAnalysis::Ngrams { min_gram, max_gram }, text).len() > 0 <==> text.len()
            >= min_gram,
{
    let tokens = analyzer_tokens(TextAnalysis::Ngrams { min_gram, max_gram }, text);
    if tokens.len() > 0 {
        assert(tokens.contains(tokens[0]));
        let at = lemma_ngram_is_part(text, min_gram, max_gram, 0, tokens[0]);
    }
    if text.len() >= min_gram {
        lemma_part_is_ngram(text, min_gram, max_gram, 0, 0, min_gram as int);
    }
}

/// Every n-gram of a part of a text, in upper or lower case, is an n-gram of
/// the text, so that a search for the part finds the text.
pub proof fn law_ngrams_find_parts(
    min_gram: usize,
    max_gram: usize,
    text: Seq<char>,
    from: int,
    part: Seq<char>,
    token: Seq<char>,
)
    requires
        0 < min_gram,
        0 <= from,
        from + part.len() <= text.len(),
        same_but_case(part, text.subrange(from, from + part.len())),
        analyzer_tokens(TextAnalysis::Ngrams { min_gram, max_gram }, part).contains(token),
    ensures
        analyzer_tokens(TextAnalysis::Ngrams { min_gram, max_gram }, text).contains(token),
{
    let copy = text.subrange(from, from + part.len());
    law_ngrams_ignore_case(min_gram, max_gram, part, copy);
    let at = lemma_ngram_is_part(copy, min_gram, max_gram, 0, token);
    assert(copy.subrange(at.0, at.0 + at.1) =~= text.subrange(
        from + at.0,
        from + at.0 + at.1,
    ));
    lemma_part_is_ngram(text, min_gram, max_gram, 0, from + at.0, at.1);
}

/// There is a tokenizer for words in any case, for stems if the language is
/// known, and for n-grams if they are not empty and the smallest size is not
/// above the largest.
pub proof fn law_possible_tokenizers(
    limit: usize,
    language: Language,
    min_gram: usize,
    max_gram: usize,
)
    ensures
        possible(TextAnalysis::Words { limit }),
        possible(TextAnalysis::Stemmed { limit, language }) <==> language != Language::Unknown,
        possible(TextAnalysis::Ngrams { min_gram, max_gram }) <==> 1 <= min_gram && min_gram
            <= max_gram,
{
}

/// An index with settings of any size that can be counted with can be made: its
/// words are short, and only the largest number is no size of an n-gram.
pub proof fn law_usable_tokenizers(language: Language, min_gram: usize, max_gram: usize)
    ensures
        usable(TokenizerMode::LanguageBased.text_analysis(language)),
        max_gram < usize::MAX ==> usable(
            (TokenizerMode::Ngram { min_gram, max_gram }).text_analysis(language),
        ),
{
}

} // verus!
