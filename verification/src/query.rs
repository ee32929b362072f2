//! What a search looks for.

use vstd::prelude::*;

use crate::schema::Field;

verus! {

/// How a part of a query decides about a document.
#[derive(Clone, Copy, Debug, PartialEq, Eq, Structural)]
pub enum Occur {
    /// The document may match the part.
    Should,
    /// The document has to match the part.
    Must,
    /// The document must not match the part.
    MustNot,
}

/// A token of a field.
#[derive(Clone, Debug, PartialEq, Eq)]
pub struct Term {
    pub field: Field,
    pub text: String,
}

/// A query, to be run by the search engine.
#[derive(Debug, PartialEq, Eq)]
pub enum Query {
    /// Matches nothing.
    Empty,
    /// Matches every document.
    All,
    /// Matches the text as it is, a word or a phrase, in the fields that are
    /// searched by default.
    Exact(String),
    /// Matches what the query language makes of the text.
    Syntax(String),
    /// Matches documents with the term.
    Term(Term),
    /// Matches documents with a term that differs from this one by at most
    /// `distance` typos, where two characters that changed places are one
    /// typo. With `prefix`, the term may go on behind that.
    Fuzzy { term: Term, distance: u8, prefix: bool },
    /// Matches documents with the terms one behind the other, where the last
    /// one may go on behind its end.
    PhrasePrefix(Vec<Term>),
    /// Matches by the matches of its parts.
    Boolean(Vec<(Occur, Query)>),
}

/// A token of a field, as a value.
pub struct TermView {
    pub field: Field,
    pub text: Seq<char>,
}

/// A query, as a value.
pub enum Tree {
    Empty,
    All,
    Exact(Seq<char>),
    Syntax(Seq<char>),
    Term(TermView),
    Fuzzy { term: TermView, distance: u8, prefix: bool },
    PhrasePrefix(Seq<TermView>),
    Boolean(Seq<(Occur, Tree)>),
}

impl View for Term {
    type V = TermView;

    open spec fn view(&self) -> TermView {
        TermView { field: self.field, text: self.text@ }
    }
}

impl View for Query {
    type V = Tree;

    open spec fn view(&self) -> Tree {
        tree_of(*self)
    }
}

/// A query, as a value.
pub open spec fn tree_of(query: Query) -> Tree
    decreases query,
{
    match query {
        Query::Empty => Tree::Empty,
        Query::All => Tree::All,
        Query::Exact(text) => Tree::Exact(text@),
        Query::Syntax(text) => Tree::Syntax(text@),
        Query::Term(term) => Tree::Term(term@),
        Query::Fuzzy { term, distance, prefix } => Tree::Fuzzy { term: term@, distance, prefix },
        Query::PhrasePrefix(terms) => Tree::PhrasePrefix(terms@.map_values(|t: Term| t@)),
        Query::Boolean(parts) => Tree::Boolean(
            Seq::new(
                parts@.len(),
                |i: int|
                    if 0 <= i < parts@.len() {
                        (parts@[i].0, tree_of(parts@[i].1))
                    } else {
                        (Occur::Should, Tree::Empty)
                    },
            ),
        ),
    }
}

/// The parts of a query, as values.
pub open spec fn part_views(parts: Seq<(Occur, Query)>) -> Seq<(Occur, Tree)> {
    Seq::new(parts.len(), |i: int| (parts[i].0, tree_of(parts[i].1)))
}

/// A query of several parts.
pub fn boolean(parts: Vec<(Occur, Query)>) -> (query: Query)
    ensures
        query@ == Tree::Boolean(part_views(parts@)),
{
    let query = Query::Boolean(parts);
    assert(query@->Boolean_0 =~= part_views(parts@));
    query
}

/// Whether a query matches a document, given which of the queries without
/// parts do. A query of several parts matches a document that matches all
/// parts that must match, none that must not, and at least one that must or
/// should.
pub open spec fn selects(tree: Tree, leaf: spec_fn(Tree) -> bool) -> bool
    decreases tree,
{
    match tree {
        Tree::Empty => false,
        Tree::All => true,
        Tree::Boolean(parts) => {
            &&& forall|i: int|
                0 <= i < parts.len() && (#[trigger] parts[i]).0 == Occur::Must ==> selects(
                    parts[i].1,
                    leaf,
                )
            &&& forall|i: int|
                0 <= i < parts.len() && (#[trigger] parts[i]).0 == Occur::MustNot ==> !selects(
                    parts[i].1,
                    leaf,
                )
            &&& exists|i: int|
                0 <= i < parts.len() && (#[trigger] parts[i]).0 != Occur::MustNot && selects(
                    parts[i].1,
                    leaf,
                )
        },
        _ => leaf(tree),
    }
}

/// The view of a query is the query itself, with the texts of its strings.
pub proof fn law_query_view(query: Query)
    ensures
        match query {
            Query::Empty => query@ == Tree::Empty,
            Query::All => query@ == Tree::All,
            Query::Exact(text) => query@ == Tree::Exact(text@),
            Query::Syntax(text) => query@ == Tree::Syntax(text@),
            Query::Term(term) => query@ matches Tree::Term(view) && view.field == term.field
                && view.text == term.text@,
            Query::Fuzzy { term, distance, prefix } => query@ matches Tree::Fuzzy {
                term: view,
                distance: d,
                prefix: p,
            } && view.field == term.field && view.text == term.text@ && d == distance && p
                == prefix,
            Query::PhrasePrefix(terms) => query@ matches Tree::PhrasePrefix(views) && views.len()
                == terms@.len() && forall|i: int|
                0 <= i < views.len() ==> (#[trigger] views[i]).field == terms@[i].field
                    && views[i].text == terms@[i].text@,
            Query::Boolean(parts) => query@ matches Tree::Boolean(views) && views.len()
                == parts@.len() && forall|i: int|
                0 <= i < views.len() ==> (#[trigger] views[i]).0 == parts@[i].0 && views[i].1
                    == parts@[i].1@,
        },
{
}

} // verus!
