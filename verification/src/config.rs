//! The settings of an index and of a search.

use vstd::prelude::*;
use vstd::string::StringExecFns;

use crate::events::EventType;
use crate::text::optional_text;

verus! {

/// The language of the text in the index.
#[derive(Clone, Copy, Debug, PartialEq, Eq, Structural)]
pub enum Language {
    Arabic,
    Danish,
    Dutch,
    English,
    Finnish,
    French,
    German,
    Greek,
    Hungarian,
    Italian,
    Norwegian,
    Portuguese,
    Romanian,
    Russian,
    Spanish,
    Swedish,
    Tamil,
    Turkish,
    /// No language in particular: words are not stemmed.
    Unknown,
}

/// How text is cut into the tokens that a search finds.
#[derive(Clone, Copy, Debug, PartialEq, Eq, Structural)]
pub enum TokenizerMode {
    /// Into words, stemmed by the rules of the language.
    LanguageBased,
    /// Into all parts of `min_gram` to `max_gram` characters.
    Ngram { min_gram: usize, max_gram: usize },
}

/// The settings of an index.
#[derive(Clone, Copy, Debug, PartialEq, Eq, Structural)]
pub struct Config {
    pub language: Language,
    pub tokenizer_mode: TokenizerMode,
}

/// The settings of a search.
#[derive(Debug, PartialEq, Eq)]
pub struct SearchConfig {
    /// How many events a page of results holds at most.
    pub limit: usize,
    /// Newest events first, instead of the best matches.
    pub order_by_recency: bool,
    /// Only find events of this room.
    pub room_id: Option<String>,
    /// What kinds of events to search, all of them if there are none.
    pub keys: Vec<EventType>,
    /// The token of a previous page, to get the page behind it.
    pub next_batch: Option<u128>,
    /// The search term is written in the query language.
    pub query_syntax: bool,
}

/// The settings of a search, as a value.
pub struct SearchConfigView {
    pub limit: usize,
    pub order_by_recency: bool,
    pub room_id: Option<Seq<char>>,
    pub keys: Seq<EventType>,
    pub next_batch: Option<u128>,
    pub query_syntax: bool,
}

impl View for SearchConfig {
    type V = SearchConfigView;

    open spec fn view(&self) -> SearchConfigView {
        SearchConfigView {
            limit: self.limit,
            order_by_recency: self.order_by_recency,
            room_id: optional_text(self.room_id),
            keys: self.keys@,
            next_batch: self.next_batch,
            query_syntax: self.query_syntax,
        }
    }
}

impl Clone for SearchConfig {
    fn clone(&self) -> (config: SearchConfig)
        ensures
            config@ == self@,
    {
        let keys = self.keys.clone();
        assert(keys@ =~= self.keys@);
        SearchConfig {
            limit: self.limit,
            order_by_recency: self.order_by_recency,
            room_id: self.room_id.clone(),
            keys,
            next_batch: self.next_batch,
            query_syntax: self.query_syntax,
        }
    }
}

/// Longer words are left out of the index.
pub const WORD_BYTE_LIMIT: usize = 40;

/// How text becomes tokens.
#[derive(Clone, Copy, Debug, PartialEq, Eq, Structural)]
pub enum TextAnalysis {
    /// Words shorter than `limit` bytes, in lower case.
    Words { limit: usize },
    /// Like `Words`, and stemmed by the rules of a language.
    Stemmed { limit: usize, language: Language },
    /// All parts of `min_gram` to `max_gram` characters, in lower case.
    Ngrams { min_gram: usize, max_gram: usize },
}

impl Language {
    pub open spec fn spec_name(self) -> Seq<char> {
        match self {
            Language::Arabic => "arabic"@,
            Language::Danish => "danish"@,
            Language::Dutch => "dutch"@,
            Language::English => "english"@,
            Language::Finnish => "finnish"@,
            Language::French => "french"@,
            Language::German => "german"@,
            Language::Greek => "greek"@,
            Language::Hungarian => "hungarian"@,
            Language::Italian => "italian"@,
            Language::Norwegian => "norwegian"@,
            Language::Portuguese => "portuguese"@,
            Language::Romanian => "romanian"@,
            Language::Russian => "russian"@,
            Language::Spanish => "spanish"@,
            Language::Swedish => "swedish"@,
            Language::Tamil => "tamil"@,
            Language::Turkish => "turkish"@,
            Language::Unknown => "unknown"@,
        }
    }

    /// The name of the language.
    pub fn name(self) -> (name: &'static str)
        ensures
            name@ == self.spec_name(),
    {
        match self {
            Language::Arabic => "arabic",
            Language::Danish => "danish",
            Language::Dutch => "dutch",
            Language::English => "english",
            Language::Finnish => "finnish",
            Language::French => "french",
            Language::German => "german",
            Language::Greek => "greek",
            Language::Hungarian => "hungarian",
            Language::Italian => "italian",
            Language::Norwegian => "norwegian",
            Language::Portuguese => "portuguese",
            Language::Romanian => "romanian",
            Language::Russian => "russian",
            Language::Spanish => "spanish",
            Language::Swedish => "swedish",
            Language::Tamil => "tamil",
            Language::Turkish => "turkish",
            Language::Unknown => "unknown",
        }
    }
}

/// Two languages with one name are the same.
proof fn lemma_language_names(a: Language, b: Language)
    ensures
        a.spec_name() == b.spec_name() ==> a == b,
        2 <= a.spec_name().len(),
        forall|i: int| 0 <= i < a.spec_name().len() ==> #[trigger] a.spec_name()[i] != '_',
{
    reveal_strlit("arabic");
    reveal_strlit("danish");
    reveal_strlit("dutch");
    reveal_strlit("english");
    reveal_strlit("finnish");
    reveal_strlit("french");
    reveal_strlit("german");
    reveal_strlit("greek");
    reveal_strlit("hungarian");
    reveal_strlit("italian");
    reveal_strlit("norwegian");
    reveal_strlit("portuguese");
    reveal_strlit("romanian");
    reveal_strlit("russian");
    reveal_strlit("spanish");
    reveal_strlit("swedish");
    reveal_strlit("tamil");
    reveal_strlit("turkish");
    reveal_strlit("unknown");
    if a.spec_name() == b.spec_name() {
        assert(a.spec_name()[0] == b.spec_name()[0]);
        assert(a.spec_name()[1] == b.spec_name()[1]);
    }
}

pub open spec fn digit(d: nat) -> char {
    ('0' as int + d) as char
}

/// A number in decimal notation.
pub open spec fn decimal(n: nat) -> Seq<char>
    decreases n,
{
    if n < 10 {
        seq![digit(n)]
    } else {
        decimal(n / 10).push(digit(n % 10))
    }
}

/// The number that some digits stand for.
pub open spec fn decimal_value(digits: Seq<char>) -> int
    decreases digits.len(),
{
    if digits.len() == 0 {
        0
    } else {
        10 * decimal_value(digits.drop_last()) + (digits.last() as int - '0' as int)
    }
}

proof fn lemma_decimal(n: nat)
    ensures
        decimal_value(decimal(n)) == n,
        decimal(n).len() > 0,
        forall|i: int| 0 <= i < decimal(n).len() ==> #[trigger] decimal(n)[i] != '_',
    decreases n,
{
    reveal_with_fuel(decimal_value, 2);
    if n < 10 {
        assert(decimal(n).drop_last() =~= seq![]);
    } else {
        lemma_decimal(n / 10);
        assert(decimal(n).drop_last() =~= decimal(n / 10));
    }
}

/// Write a number behind a text.
fn push_decimal(out: &mut String, n: usize)
    ensures
        final(out)@ == old(out)@ + decimal(n as nat),
    decreases n,
{
    if n >= 10 {
        push_decimal(out, n / 10);
    }
    let d: u8 = (n % 10) as u8;
    out.push((48 + d) as char);
    assert(out@ =~= old(out)@ + decimal(n as nat));
}

impl TokenizerMode {
    /// The name under which the tokenizer of an index is known.
    pub open spec fn tokenizer_name(self, language: Language) -> Seq<char> {
        match self {
            TokenizerMode::LanguageBased => if language == Language::Unknown {
                "default"@
            } else {
                "seshat_"@ + language.spec_name()
            },
            TokenizerMode::Ngram { min_gram, max_gram } => "seshat_ngram_"@ + decimal(
                min_gram as nat,
            ) + "_"@ + decimal(max_gram as nat),
        }
    }

    /// How an index with these settings treats text.
    pub open spec fn text_analysis(self, language: Language) -> TextAnalysis {
        match self {
            TokenizerMode::LanguageBased => if language == Language::Unknown {
                TextAnalysis::Words { limit: WORD_BYTE_LIMIT }
            } else {
                TextAnalysis::Stemmed { limit: WORD_BYTE_LIMIT, language }
            },
            TokenizerMode::Ngram { min_gram, max_gram } => TextAnalysis::Ngrams {
                min_gram,
                max_gram,
            },
        }
    }

    /// The name under which the tokenizer of an index is known.
    pub fn as_tokenizer_name(&self, language: Language) -> (name: String)
        ensures
            name@ == self.tokenizer_name(language),
    {
        let mut name = String::new();
        match *self {
            TokenizerMode::LanguageBased => {
                if language == Language::Unknown {
                    name.append("default");
                } else {
                    name.append("seshat_");
                    name.append(language.name());
                }
            },
            TokenizerMode::Ngram { min_gram, max_gram } => {
                name.append("seshat_ngram_");
                push_decimal(&mut name, min_gram);
                name.append("_");
                push_decimal(&mut name, max_gram);
            },
        }
        assert(name@ =~= self.tokenizer_name(language));
        name
    }

    /// How an index with these settings treats text.
    pub fn as_text_analysis(&self, language: Language) -> (analysis: TextAnalysis)
        ensures
            analysis == self.text_analysis(language),
    {
        match *self {
            TokenizerMode::LanguageBased => {
                if language == Language::Unknown {
                    TextAnalysis::Words { limit: WORD_BYTE_LIMIT }
                } else {
                    TextAnalysis::Stemmed { limit: WORD_BYTE_LIMIT, language }
                }
            },
            TokenizerMode::Ngram { min_gram, max_gram } => TextAnalysis::Ngrams {
                min_gram,
                max_gram,
            },
        }
    }
}

/// Where the first `_` of a text stands.
proof fn lemma_first_gap(a: Seq<char>, b: Seq<char>, c: Seq<char>, d: Seq<char>)
    requires
        a + "_"@ + b == c + "_"@ + d,
        forall|i: int| 0 <= i < a.len() ==> #[trigger] a[i] != '_',
        forall|i: int| 0 <= i < c.len() ==> #[trigger] c[i] != '_',
    ensures
        a == c,
        b == d,
{
    reveal_strlit("_");
    let left = a + "_"@ + b;
    let right = c + "_"@ + d;
    assert(left[a.len() as int] == '_');
    assert(right[c.len() as int] == '_');
    if a.len() < c.len() {
        assert(right[a.len() as int] == c[a.len() as int]);
    }
    if c.len() < a.len() {
        assert(left[c.len() as int] == a[c.len() as int]);
    }
    assert(a =~= left.take(a.len() as int));
    assert(c =~= right.take(c.len() as int));
    assert(b =~= left.skip(a.len() as int + 1));
    assert(d =~= right.skip(c.len() as int + 1));
}

/// The tokenizer of a language does not have the name of an n-gram tokenizer.
proof fn lemma_language_is_no_ngram(language: Language, a: Seq<char>, b: Seq<char>)
    ensures
        "seshat_"@ + language.spec_name() != "seshat_ngram_"@ + a + "_"@ + b,
{
    reveal_strlit("seshat_");
    reveal_strlit("seshat_ngram_");
    reveal_strlit("_");
    lemma_language_names(language, language);
    let name = "seshat_"@ + language.spec_name();
    let other = "seshat_ngram_"@ + a + "_"@ + b;
    assert(other.len() > 13);
    assert(other[12] == '_');
    if name.len() > 12 {
        assert(name[12] == language.spec_name()[5]);
    }
}

/// Two settings name the same tokenizer if and only if they treat text alike.
/// So an index that was made with other settings is told apart by the name.
pub proof fn law_tokenizer_name_tells_analysis(
    mode: TokenizerMode,
    language: Language,
    other_mode: TokenizerMode,
    other_language: Language,
)
    ensures
        mode.tokenizer_name(language) == other_mode.tokenizer_name(other_language)
            <==> mode.text_analysis(language) == other_mode.text_analysis(other_language),
{
    let name = mode.tokenizer_name(language);
    let other = other_mode.tokenizer_name(other_language);
    reveal_strlit("default");
    reveal_strlit("seshat_");
    reveal_strlit("seshat_ngram_");
    reveal_strlit("_");
    lemma_language_names(language, other_language);
    lemma_language_names(other_language, language);
    if name == other {
        assert(name[0] == other[0]);
        match (mode, other_mode) {
            (TokenizerMode::LanguageBased, TokenizerMode::LanguageBased) => {
                if language != Language::Unknown {
                    assert(name.skip(7) =~= language.spec_name());
                    assert(other.skip(7) =~= other_language.spec_name());
                }
            },
            (TokenizerMode::Ngram { min_gram: a, max_gram: b }, TokenizerMode::Ngram {
                min_gram: c,
                max_gram: d,
            }) => {
                lemma_decimal(a as nat);
                lemma_decimal(b as nat);
                lemma_decimal(c as nat);
                lemma_decimal(d as nat);
                assert(name.skip(13) =~= decimal(a as nat) + "_"@ + decimal(b as nat));
                assert(other.skip(13) =~= decimal(c as nat) + "_"@ + decimal(d as nat));
                lemma_first_gap(
                    decimal(a as nat),
                    decimal(b as nat),
                    decimal(c as nat),
                    decimal(d as nat),
                );
            },
            (TokenizerMode::LanguageBased, TokenizerMode::Ngram { min_gram, max_gram }) => {
                if language != Language::Unknown {
                    lemma_language_is_no_ngram(language, decimal(min_gram as nat), decimal(
                        max_gram as nat,
                    ));
                }
            },
            (TokenizerMode::Ngram { min_gram, max_gram }, TokenizerMode::LanguageBased) => {
                if other_language != Language::Unknown {
                    lemma_language_is_no_ngram(other_language, decimal(min_gram as nat), decimal(
                        max_gram as nat,
                    ));
                }
            },
        }
    }
}

/// The view of the settings of a search is the settings themselves.
pub proof fn law_search_config_view(config: SearchConfig)
    ensures
        config@.limit == config.limit,
        config@.order_by_recency == config.order_by_recency,
        config@.room_id is Some <==> config.room_id is Some,
        config.room_id matches Some(room) ==> config@.room_id == Some(room@),
        config@.keys == config.keys@,
        config@.next_batch == config.next_batch,
        config@.query_syntax == config.query_syntax,
{
}

/// Without n-grams, words shorter than 40 bytes are indexed, stemmed if the
/// language is known. With n-grams the language makes no difference.
pub proof fn law_text_analysis(language: Language, min_gram: usize, max_gram: usize)
    ensures
        language == Language::Unknown ==> TokenizerMode::LanguageBased.text_analysis(language)
            == (TextAnalysis::Words { limit: 40 }),
        language != Language::Unknown ==> TokenizerMode::LanguageBased.text_analysis(language)
            == (TextAnalysis::Stemmed { limit: 40, language }),
        (TokenizerMode::Ngram { min_gram, max_gram }).text_analysis(language) == (
        TextAnalysis::Ngrams { min_gram, max_gram }),
{
}

/// The names of the languages.
pub proof fn law_language_names()
    ensures
        Language::Arabic.spec_name() == "arabic"@,
        Language::Danish.spec_name() == "danish"@,
        Language::Dutch.spec_name() == "dutch"@,
        Language::English.spec_name() == "english"@,
        Language::Finnish.spec_name() == "finnish"@,
        Language::French.spec_name() == "french"@,
        Language::German.spec_name() == "german"@,
        Language::Greek.spec_name() == "greek"@,
        Language::Hungarian.spec_name() == "hungarian"@,
        Language::Italian.spec_name() == "italian"@,
        Language::Norwegian.spec_name() == "norwegian"@,
        Language::Portuguese.spec_name() == "portuguese"@,
        Language::Romanian.spec_name() == "romanian"@,
        Language::Russian.spec_name() == "russian"@,
        Language::Spanish.spec_name() == "spanish"@,
        Language::Swedish.spec_name() == "swedish"@,
        Language::Tamil.spec_name() == "tamil"@,
        Language::Turkish.spec_name() == "turkish"@,
        Language::Unknown.spec_name() == "unknown"@,
{
}

/// The names of the tokenizers: the one for words without a language is known
/// to the search engine as `default`, the others are named by the language or
/// by the sizes of the n-grams.
pub proof fn law_tokenizer_names(language: Language, min_gram: usize, max_gram: usize)
    ensures
        TokenizerMode::LanguageBased.tokenizer_name(Language::Unknown) == "default"@,
        language != Language::Unknown ==> TokenizerMode::LanguageBased.tokenizer_name(language)
            == "seshat_"@ + language.spec_name(),
        (TokenizerMode::Ngram { min_gram, max_gram }).tokenizer_name(language)
            == "seshat_ngram_"@ + decimal(min_gram as nat) + "_"@ + decimal(max_gram as nat),
{
}

/// A number in decimal notation is made of digits, without a leading zero, and
/// stands for the number.
pub proof fn law_decimal(n: nat)
    ensures
        decimal_value(decimal(n)) == n,
        decimal(n).len() > 0,
        decimal(n).len() > 1 ==> decimal(n)[0] != '0',
        forall|i: int| 0 <= i < decimal(n).len() ==> '0' <= #[trigger] decimal(n)[i] <= '9',
    decreases n,
{
    lemma_decimal(n);
    if n >= 10 {
        law_decimal(n / 10);
        if n / 10 < 10 {
            assert(decimal(n / 10) =~= seq![digit(n / 10)]);
        } else {
            lemma_decimal(n / 10 / 10);
        }
        assert(decimal(n)[0] == decimal(n / 10)[0]);
    }
}

} // verus!
