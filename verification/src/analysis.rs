//! How text becomes the tokens that a search finds.

use tantivy::tokenizer::Language as Stem;
use tantivy::tokenizer::LowerCaser;
use tantivy::tokenizer::NgramTokenizer;
use tantivy::tokenizer::RemoveLongFilter;
use tantivy::tokenizer::SimpleTokenizer;
use tantivy::tokenizer::Stemmer;
use tantivy::tokenizer::TextAnalyzer;
use tantivy::tokenizer::TokenStream;
use tantivy::tokenizer::TokenizerManager;
use tantivy::TantivyError;
use vstd::prelude::*;
use vstd::utf8::encode_utf8;

use crate::config::Language;
use crate::config::TextAnalysis;
use crate::error::Error;
use crate::text::alphanumeric;
use crate::text::string_views;

verus! {

/// `tantivy::tokenizer::TextAnalyzer`, a tokenizer with its filters.
#[verifier::external_type_specification]
#[verifier::external_body]
pub struct ExTextAnalyzer(TextAnalyzer);

/// `tantivy::tokenizer::TokenizerManager`, the tokenizers of an index by name.
#[verifier::external_type_specification]
#[verifier::external_body]
pub struct ExTokenizerManager(TokenizerManager);

/// `tantivy::tokenizer::Stemmer`, which cuts words down to their stems.
#[verifier::external_type_specification]
#[verifier::external_body]
pub struct ExStemmer(Stemmer);

/// Cuts the words of a language down to their stems.
struct WordStemmer {
    inner: Stemmer,
    language: Language,
}

impl View for WordStemmer {
    type V = Language;

    closed spec fn view(&self) -> Language {
        self.language
    }
}

/// Cuts text into tokens.
pub struct Analyzer {
    inner: TextAnalyzer,
    analysis: TextAnalysis,
}

impl View for Analyzer {
    type V = TextAnalysis;

    /// How the text is cut.
    closed spec fn view(&self) -> TextAnalysis {
        self.analysis
    }
}

/// The stemmer counts bytes in 31 bits, and a word may grow in lower case. Up
/// to this many bytes of a word are far from its limits.
pub const STEMMED_BYTE_LIMIT: usize = 0x1000_0000;

/// Whether there is a tokenizer for these settings.
pub open spec fn possible(analysis: TextAnalysis) -> bool {
    match analysis {
        TextAnalysis::Words { .. } => true,
        TextAnalysis::Stemmed { language, .. } => language != Language::Unknown,
        TextAnalysis::Ngrams { min_gram, max_gram } => 0 < min_gram <= max_gram,
    }
}

/// Whether a tokenizer with these settings, if there is one, can be run: there
/// are stems of the language, and no size is too large to count with.
pub open spec fn usable(analysis: TextAnalysis) -> bool {
    match analysis {
        TextAnalysis::Words { .. } => true,
        TextAnalysis::Stemmed { limit, language } => language != Language::Unknown && limit
            <= STEMMED_BYTE_LIMIT,
        TextAnalysis::Ngrams { min_gram, max_gram } => min_gram == 0 || max_gram < usize::MAX,
    }
}

/// What a character beyond ASCII is in lower case, as `char::to_lowercase`
/// tells it.
pub uninterp spec fn unicode_lower(c: char) -> Seq<char>;

/// The stem of a word in lower case, as the stemmer of the language tells it.
pub uninterp spec fn stem_of(language: Language, word: Seq<char>) -> Seq<char>;

/// What a character is in lower case.
pub open spec fn lower(c: char) -> Seq<char> {
    if 'A' <= c <= 'Z' {
        seq![(c as u32 + 32) as char]
    } else if c <= '\u{7f}' {
        seq![c]
    } else {
        unicode_lower(c)
    }
}

/// A text in lower case, character by character.
pub open spec fn lowered(text: Seq<char>) -> Seq<char>
    decreases text.len(),
{
    if text.len() == 0 {
        seq![]
    } else {
        lowered(text.drop_last()) + lower(text.last())
    }
}

/// The longest parts of a text without separators.
pub open spec fn alphanumeric_runs(text: Seq<char>) -> Seq<Seq<char>>
    decreases text.len(),
{
    if text.len() == 0 {
        seq![]
    } else {
        let before = alphanumeric_runs(text.drop_last());
        if !alphanumeric(text.last()) {
            before
        } else if text.len() > 1 && alphanumeric(text[text.len() - 2]) {
            before.drop_last().push(before.last().push(text.last()))
        } else {
            before.push(seq![text.last()])
        }
    }
}

/// Those of some words that are shorter than `limit` bytes.
pub open spec fn short_words(words: Seq<Seq<char>>, limit: usize) -> Seq<Seq<char>>
    decreases words.len(),
{
    if words.len() == 0 {
        seq![]
    } else if encode_utf8(words.last()).len() < limit {
        short_words(words.drop_last(), limit).push(words.last())
    } else {
        short_words(words.drop_last(), limit)
    }
}

/// The words of a text that are shorter than `limit` bytes, in lower case.
pub open spec fn lower_words(text: Seq<char>, limit: usize) -> Seq<Seq<char>> {
    short_words(alphanumeric_runs(text), limit).map_values(|word: Seq<char>| lowered(word))
}

/// The parts of `min_gram` to `max_gram` characters of a text, in lower case,
/// that start at the character `i` or behind it: by where they start, the
/// shorter ones first.
pub open spec fn ngrams_from(text: Seq<char>, min_gram: usize, max_gram: usize, i: int) -> Seq<
    Seq<char>,
>
    decreases text.len() - i,
{
    if i < 0 || i >= text.len() {
        seq![]
    } else {
        let longest = if text.len() - i < max_gram {
            text.len() - i
        } else {
            max_gram as int
        };
        Seq::new(
            if min_gram <= longest {
                (longest - min_gram + 1) as nat
            } else {
                0
            },
            |k: int| lowered(text.subrange(i, i + min_gram + k)),
        ) + ngrams_from(text, min_gram, max_gram, i + 1)
    }
}

/// The texts of the tokens that an analyzer of this kind cuts a text into.
pub open spec fn analyzer_tokens(analysis: TextAnalysis, text: Seq<char>) -> Seq<Seq<char>> {
    match analysis {
        TextAnalysis::Words { limit } => lower_words(text, limit),
        TextAnalysis::Stemmed { limit, language } => lower_words(text, limit).map_values(
            |word: Seq<char>| stem_of(language, word),
        ),
        TextAnalysis::Ngrams { min_gram, max_gram } => ngrams_from(text, min_gram, max_gram, 0),
    }
}

/// The tokenizers that a manager knows, by name.
pub uninterp spec fn registered(tokenizers: TokenizerManager) -> Map<Seq<char>, TextAnalysis>;

/// `TextAnalyzer::builder` with tantivy's word tokenizer, its filter of long
/// words and its lower caser.
#[verifier::external_body]
fn words_analyzer(limit: usize) -> (analyzer: Analyzer)
    ensures
        analyzer@ == (TextAnalysis::Words { limit }),
{
    let inner = TextAnalyzer::builder(SimpleTokenizer::default())
        .filter(RemoveLongFilter::limit(limit))
        .filter(LowerCaser)
        .build();
    Analyzer { inner, analysis: TextAnalysis::Words { limit } }
}

/// `Stemmer::new` makes the stemmer of a language.
#[verifier::external_body]
fn stemmer(language: Language) -> (stemmer: WordStemmer)
    requires
        language != Language::Unknown,
    ensures
        stemmer@ == language,
{
    let stem = match language {
        Language::Arabic => Stem::Arabic, Language::Danish => Stem::Danish,
        Language::Dutch => Stem::Dutch, Language::English => Stem::English,
        Language::Finnish => Stem::Finnish, Language::French => Stem::French,
        Language::German => Stem::German, Language::Greek => Stem::Greek,
        Language::Hungarian => Stem::Hungarian, Language::Italian => Stem::Italian,
        Language::Norwegian => Stem::Norwegian, Language::Portuguese => Stem::Portuguese,
        Language::Romanian => Stem::Romanian, Language::Russian => Stem::Russian,
        Language::Spanish => Stem::Spanish, Language::Swedish => Stem::Swedish,
        Language::Tamil => Stem::Tamil, Language::Turkish => Stem::Turkish,
        Language::Unknown => Stem::English,
    };
    WordStemmer { inner: Stemmer::new(stem), language }
}

/// `TextAnalyzer::builder` with tantivy's word tokenizer, its filter of long
/// words, its lower caser and a stemmer.
#[verifier::external_body]
fn stemmed_analyzer(limit: usize, stemmer: WordStemmer) -> (analyzer: Analyzer)
    requires
        usable(TextAnalysis::Stemmed { limit, language: stemmer@ }),
    ensures
        analyzer@ == (TextAnalysis::Stemmed { limit, language: stemmer@ }),
{
    let inner = TextAnalyzer::builder(SimpleTokenizer::default())
        .filter(RemoveLongFilter::limit(limit))
        .filter(LowerCaser)
        .filter(stemmer.inner)
        .build();
    Analyzer { inner, analysis: TextAnalysis::Stemmed { limit, language: stemmer.language } }
}

/// `TextAnalyzer::builder` with tantivy's n-gram tokenizer and its lower
/// caser. `NgramTokenizer::new` refuses empty n-grams, and a smallest size
/// above the largest.
#[verifier::external_body]
fn ngram_analyzer(min_gram: usize, max_gram: usize) -> (r: Result<Analyzer, TantivyError>)
    requires
        usable(TextAnalysis::Ngrams { min_gram, max_gram }),
    ensures
        r is Err <==> min_gram == 0 || min_gram > max_gram,
        r matches Ok(analyzer) ==> analyzer@ == (TextAnalysis::Ngrams { min_gram, max_gram }),
{
    let inner = TextAnalyzer::builder(NgramTokenizer::new(min_gram, max_gram, false)?)
        .filter(LowerCaser)
        .build();
    Ok(Analyzer { inner, analysis: TextAnalysis::Ngrams { min_gram, max_gram } })
}

/// `TextAnalyzer::token_stream` hands out the tokens of a text. The word
/// tokenizer takes the runs of alphanumeric characters, the filter of long
/// words leaves those shorter than its limit, the lower caser takes each
/// character to lower case, and the stemmer takes each word to its stem. The
/// n-gram tokenizer takes all parts of the given sizes. Only the lower case
/// beyond ASCII and the stems are named, not spelled out. An n-gram tokenizer
/// panics if its largest size is the largest number, and a stemmer cannot count
/// the bytes of words without bounds.
#[verifier::external_body]
fn token_texts(analyzer: &Analyzer, text: &str) -> (texts: Vec<String>)
    requires
        possible(analyzer@),
        usable(analyzer@),
    ensures
        string_views(texts@) == analyzer_tokens(analyzer@, text@),
        analyzer@ matches TextAnalysis::Stemmed { limit, language } ==> string_views(texts@)
            == lower_words(text@, limit).map_values(
            |word: Seq<char>| stem_of(language, word),
        ),
        analyzer@ matches TextAnalysis::Ngrams { min_gram, .. } && min_gram == 1
            && text@.len() == 1 && text@[0] > '\u{7f}' ==> string_views(texts@) == seq![
            unicode_lower(text@[0]),
        ],
{
    let mut texts = Vec::new();
    let mut inner = analyzer.inner.clone();
    inner.token_stream(text).process(&mut |token| texts.push(token.text.clone()));
    texts
}

/// `TokenizerManager::default` knows, among others, the tokenizer `default`:
/// words shorter than 40 bytes in lower case.
#[verifier::external_body]
pub(crate) fn default_tokenizers() -> (tokenizers: TokenizerManager)
    ensures
        registered(tokenizers).contains_pair("default"@, TextAnalysis::Words { limit: 40 }),
{
    TokenizerManager::default()
}

/// `TokenizerManager::register` adds a tokenizer to those that
/// `TokenizerManager::default` knows, or replaces the one of the same name. It
/// does so before anything else gets to know the manager, as clones of a
/// manager share their tokenizers.
#[verifier::external_body]
pub(crate) fn tokenizers_with(name: &str, analyzer: Analyzer) -> (tokenizers: TokenizerManager)
    ensures
        registered(tokenizers).contains_pair(name@, analyzer@),
        name@ != "default"@ ==> registered(tokenizers).contains_pair(
            "default"@,
            TextAnalysis::Words { limit: 40 },
        ),
{
    let tokenizers = TokenizerManager::default();
    tokenizers.register(name, analyzer.inner);
    tokenizers
}

impl Analyzer {
    /// The tokenizer can be run.
    #[verifier::type_invariant]
    spec fn valid(self) -> bool {
        possible(self.analysis) && usable(self.analysis)
    }

    /// The analyzer that treats text in this way.
    pub fn new(analysis: TextAnalysis) -> (r: Result<Analyzer, Error>)
        requires
            usable(analysis),
        ensures
            r is Ok <==> possible(analysis),
            r matches Ok(analyzer) ==> analyzer@ == analysis,
            r matches Err(e) ==> e is Tokenizer,
    {
        match analysis {
            TextAnalysis::Words { limit } => Ok(words_analyzer(limit)),
            TextAnalysis::Stemmed { limit, language } => Ok(
                stemmed_analyzer(limit, stemmer(language)),
            ),
            TextAnalysis::Ngrams { min_gram, max_gram } => match ngram_analyzer(
                min_gram,
                max_gram,
            ) {
                Ok(analyzer) => Ok(analyzer),
                Err(error) => Err(Error::Tokenizer(error)),
            },
        }
    }

    /// The texts of the tokens of a text.
    pub fn tokens(&self, text: &str) -> (texts: Vec<String>)
        ensures
            string_views(texts@) == analyzer_tokens(self@, text@),
    {
        proof {
            use_type_invariant(self);
        }
        token_texts(self, text)
    }
}

} // verus!
