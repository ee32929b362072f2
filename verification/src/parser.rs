//! The parser of the query language.

use tantivy::query::EmptyQuery;
use tantivy::query::QueryParser;
use tantivy::query::QueryParserError;
use tantivy::schema::Field as FieldHandle;
use tantivy::schema::Schema;
use tantivy::tokenizer::TokenizerManager;
use vstd::prelude::*;

use crate::analysis::analyzer_tokens;
use crate::analysis::possible;
use crate::analysis::registered;
use crate::analysis::usable;
use crate::config::TextAnalysis;
use crate::error::Error;
use crate::schema::schema_fields;
use crate::schema::FieldEntry;

verus! {

/// `tantivy::query::QueryParser`, the parser of the query language.
#[verifier::external_type_specification]
#[verifier::external_body]
pub struct ExQueryParser(QueryParser);

/// What a parser goes by.
pub struct ParserSettings {
    /// The fields of the index.
    pub fields: Seq<FieldEntry>,
    /// The tokenizers of the index, by name.
    pub tokenizers: Map<Seq<char>, TextAnalysis>,
    /// The numbers of the fields to search, where a query names none.
    pub defaults: Seq<u32>,
    /// All words of a query have to match, instead of any.
    pub all_words: bool,
}

/// Parses queries of an index.
pub struct Parser {
    inner: QueryParser,
    settings: Ghost<ParserSettings>,
}

impl View for Parser {
    type V = ParserSettings;

    /// What the parser goes by.
    closed spec fn view(&self) -> ParserSettings {
        self.settings@
    }
}

/// What becomes of a query: nothing, if it is no valid query, and else
/// whether there is anything to match in it.
pub uninterp spec fn parse_outcome(settings: ParserSettings, query: Seq<char>) -> Option<bool>;

/// A text with every backslash doubled.
pub open spec fn escaped(text: Seq<char>) -> Seq<char>
    decreases text.len(),
{
    if text.len() == 0 {
        seq![]
    } else if text.last() == '\\' {
        escaped(text.drop_last()).push('\\').push('\\')
    } else {
        escaped(text.drop_last()).push(text.last())
    }
}

/// The query for a text as it is. Inside quotes the query language has no
/// operators.
pub open spec fn quoted(text: Seq<char>) -> Seq<char> {
    seq!['"'] + escaped(text) + seq!['"']
}

/// The tokenizer of the default field with index `i`.
pub open spec fn default_analysis(settings: ParserSettings, i: int) -> TextAnalysis {
    settings.tokenizers[settings.fields[settings.defaults[i] as int].kind->Analyzed_0]
}

/// Whether the default field with index `i` holds text whose tokenizer is
/// known.
pub open spec fn default_is_text(settings: ParserSettings, i: int) -> bool {
    &&& settings.defaults[i] < settings.fields.len()
    &&& settings.fields[settings.defaults[i] as int].kind is Analyzed
    &&& settings.tokenizers.dom().contains(
        settings.fields[settings.defaults[i] as int].kind->Analyzed_0,
    )
}

/// Whether a parser can look for text: there are fields to search, and all of
/// them hold text whose tokenizer is known.
pub open spec fn reads_text(settings: ParserSettings) -> bool {
    &&& settings.defaults.len() > 0
    &&& forall|i: int| 0 <= i < settings.defaults.len() ==> #[trigger] default_is_text(settings, i)
}

/// Whether the fields to search are fields of the index.
pub open spec fn defaults_exist(settings: ParserSettings) -> bool {
    forall|i: int|
        0 <= i < settings.defaults.len() ==> (#[trigger] settings.defaults[i])
            < settings.fields.len()
}

/// Whether every tokenizer of a field can be run.
pub open spec fn tokenizers_run(
    fields: Seq<FieldEntry>,
    tokenizers: Map<Seq<char>, TextAnalysis>,
) -> bool {
    forall|i: int|
        0 <= i < fields.len() && (#[trigger] fields[i]).kind is Analyzed
            && tokenizers.dom().contains(fields[i].kind->Analyzed_0) ==> {
            let analysis = tokenizers[fields[i].kind->Analyzed_0];
            possible(analysis) && usable(analysis)
        }
}

/// Whether any field to search cuts a text into tokens.
pub open spec fn has_tokens(settings: ParserSettings, text: Seq<char>) -> bool {
    exists|i: int|
        0 <= i < settings.defaults.len() && analyzer_tokens(
            #[trigger] default_analysis(settings, i),
            text,
        ).len() > 0
}

/// What a parser says, without the reason of a refusal.
pub open spec fn outcome(r: Result<bool, QueryParserError>) -> Option<bool> {
    match r {
        Ok(matches) => Some(matches),
        Err(_) => None,
    }
}

/// `QueryParser::new` makes a parser for an index that searches some fields by
/// default.
#[verifier::external_body]
fn new_parser(schema: &Schema, tokenizers: &TokenizerManager, defaults: &Vec<u32>) -> (parser:
    Parser)
    requires
        forall|i: int|
            0 <= i < defaults@.len() ==> (#[trigger] defaults@[i]) < schema_fields(*schema).len(),
        tokenizers_run(schema_fields(*schema), registered(*tokenizers)),
    ensures
        parser@ == (ParserSettings {
            fields: schema_fields(*schema),
            tokenizers: registered(*tokenizers),
            defaults: defaults@,
            all_words: false,
        }),
{
    let fields = defaults.iter().map(|id| FieldHandle::from_field_id(*id)).collect();
    let inner = QueryParser::new(schema.clone(), fields, tokenizers.clone());
    Parser { inner, settings: Ghost(arbitrary()) }
}

/// `QueryParser::set_conjunction_by_default` makes all words of a query have
/// to match.
#[verifier::external_body]
fn match_all_words(parser: &mut Parser)
    ensures
        final(parser)@ == (ParserSettings { all_words: true, ..old(parser)@ }),
{
    parser.inner.set_conjunction_by_default()
}

/// `QueryParser::parse_query` reads a query. `Ok` tells whether the query that
/// it makes is any other than `EmptyQuery`. The answer is named; of a text in
/// quotes it is spelled out: where every field to search holds text with a
/// known tokenizer, it is a valid query, and there is something to match if
/// any of the tokenizers cuts the text into tokens. It panics if a field to
/// search is missing, or if it runs a tokenizer that cannot be run.
#[verifier::external_body]
fn parse_query(parser: &Parser, query: &str) -> (r: Result<bool, QueryParserError>)
    requires
        defaults_exist(parser@),
        tokenizers_run(parser@.fields, parser@.tokenizers),
    ensures
        outcome(r) == parse_outcome(parser@, query@),
        forall|text: Seq<char>|
            reads_text(parser@) && !text.contains('"') && query@ == #[trigger] quoted(text)
                ==> outcome(r) == Some(has_tokens(parser@, text)),
{
    let query = parser.inner.parse_query(query)?;
    Ok(query.downcast_ref::<EmptyQuery>().is_none())
}

impl Parser {
    /// The fields to search are fields of the index, and their tokenizers can
    /// be run.
    #[verifier::type_invariant]
    spec fn valid(self) -> bool {
        &&& defaults_exist(self.settings@)
        &&& tokenizers_run(self.settings@.fields, self.settings@.tokenizers)
    }

    /// A parser for an index that searches some fields by default.
    pub fn new(
        schema: &Schema,
        tokenizers: &TokenizerManager,
        defaults: &Vec<u32>,
        all_words: bool,
    ) -> (parser: Parser)
        requires
            forall|i: int|
                0 <= i < defaults@.len() ==> (#[trigger] defaults@[i]) < schema_fields(
                    *schema,
                ).len(),
            tokenizers_run(schema_fields(*schema), registered(*tokenizers)),
        ensures
            parser@ == (ParserSettings {
                fields: schema_fields(*schema),
                tokenizers: registered(*tokenizers),
                defaults: defaults@,
                all_words,
            }),
    {
        let mut parser = new_parser(schema, tokenizers, defaults);
        if all_words {
            match_all_words(&mut parser);
        }
        parser
    }

    pub closed spec fn spec_engine(&self) -> &QueryParser {
        &self.inner
    }

    /// The parser of the search engine, to run queries with.
    #[verifier::when_used_as_spec(spec_engine)]
    pub fn engine(&self) -> (inner: &QueryParser)
        ensures
            inner == self.spec_engine(),
    {
        &self.inner
    }

    /// Whether a query is valid, and whether there is anything to match in it.
    pub fn parse(&self, query: &str) -> (r: Result<bool, Error>)
        ensures
            match parse_outcome(self@, query@) {
                Some(matches) => r == Ok::<bool, Error>(matches),
                None => r matches Err(e) && e is Query,
            },
            forall|text: Seq<char>|
                reads_text(self@) && !text.contains('"') && query@ == #[trigger] quoted(text)
                    ==> parse_outcome(self@, query@) == Some(has_tokens(self@, text)),
    {
        proof {
            use_type_invariant(self);
        }
        match parse_query(self, query) {
            Ok(matches) => Ok(matches),
            Err(error) => Err(Error::Query(error)),
        }
    }
}

} // verus!
