//! What can go wrong.

use tantivy::query::QueryParserError;
use tantivy::TantivyError;
use vstd::prelude::*;

verus! {

/// `tantivy::TantivyError`, carried along as it is.
#[verifier::external_type_specification]
#[verifier::external_body]
pub struct ExTantivyError(TantivyError);

/// `tantivy::query::QueryParserError`, carried along as it is.
#[verifier::external_type_specification]
#[verifier::external_body]
pub struct ExQueryParserError(QueryParserError);

/// Why there is no index or no search.
#[derive(Debug)]
pub enum Error {
    /// The tokenizer cannot be made with these settings.
    Tokenizer(TantivyError),
    /// The search term is no valid query.
    Query(QueryParserError),
}

} // verus!
