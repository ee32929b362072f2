//! What a search term asks for.

use vstd::prelude::*;

use crate::text::chars_of;
use crate::text::string_of;
use crate::text::whitespace;

verus! {

/// A piece of a search term.
#[derive(Clone, Debug, PartialEq, Eq)]
pub enum Item {
    /// Text between quotes.
    Phrase(String),
    /// Text between spaces. The user may still be typing the last word.
    Word { text: String, last: bool },
}

/// A piece of a search term, as a value.
pub enum ItemView {
    Phrase(Seq<char>),
    Word { text: Seq<char>, last: bool },
}

impl View for Item {
    type V = ItemView;

    open spec fn view(&self) -> ItemView {
        match self {
            Item::Phrase(text) => ItemView::Phrase(text@),
            Item::Word { text, last } => ItemView::Word { text: text@, last: *last },
        }
    }
}

pub open spec fn item_views(items: Seq<Item>) -> Seq<ItemView> {
    items.map_values(|item: Item| item@)
}

/// The parts of a term between its quotes.
pub open spec fn quote_parts(term: Seq<char>) -> Seq<Seq<char>>
    decreases term.len(),
{
    if term.len() == 0 {
        seq![seq![]]
    } else {
        let parts = quote_parts(term.drop_last());
        if term.last() == '"' {
            parts.push(seq![])
        } else {
            parts.drop_last().push(parts.last().push(term.last()))
        }
    }
}

/// The words of a text: the longest parts of it without whitespace.
pub open spec fn words(text: Seq<char>) -> Seq<Seq<char>>
    decreases text.len(),
{
    if text.len() == 0 {
        seq![]
    } else {
        let before = words(text.drop_last());
        if whitespace(text.last()) {
            before
        } else if text.len() > 1 && !whitespace(text[text.len() - 2]) {
            before.drop_last().push(before.last().push(text.last()))
        } else {
            before.push(seq![text.last()])
        }
    }
}

/// The pieces of the part with index `i`. Every second part was between
/// quotes. The user may still be typing the very last word, unless whitespace
/// comes behind it.
pub open spec fn part_items(parts: Seq<Seq<char>>, i: int) -> Seq<ItemView> {
    if i % 2 == 1 {
        seq![ItemView::Phrase(parts[i])]
    } else {
        Seq::new(
            words(parts[i]).len(),
            |j: int|
                ItemView::Word {
                    text: words(parts[i])[j],
                    last: i == parts.len() - 1 && j == words(parts[i]).len() - 1 && !whitespace(
                        parts[i].last(),
                    ),
                },
        )
    }
}

/// The pieces of the first `n` parts.
pub open spec fn items_of_parts(parts: Seq<Seq<char>>, n: int) -> Seq<ItemView>
    decreases n,
{
    if n <= 0 {
        seq![]
    } else {
        items_of_parts(parts, n - 1) + part_items(parts, n - 1)
    }
}

/// The pieces of a search term.
pub open spec fn items_of(term: Seq<char>) -> Seq<ItemView> {
    items_of_parts(quote_parts(term), quote_parts(term).len() as int)
}

pub open spec fn vec_views(parts: Seq<Vec<char>>) -> Seq<Seq<char>> {
    parts.map_values(|part: Vec<char>| part@)
}

/// Split a term at its quotes.
fn split_quotes(term: &Vec<char>) -> (parts: Vec<Vec<char>>)
    ensures
        vec_views(parts@) == quote_parts(term@),
{
    let mut parts: Vec<Vec<char>> = Vec::new();
    let mut part: Vec<char> = Vec::new();
    let mut i: usize = 0;
    assert(vec_views(parts@).push(part@) =~= quote_parts(term@.take(0)));
    while i < term.len()
        invariant
            i <= term.len(),
            vec_views(parts@).push(part@) == quote_parts(term@.take(i as int)),
        decreases term.len() - i,
    {
        let ghost before = vec_views(parts@).push(part@);
        let c = term[i];
        i = i + 1;
        assert(term@.take(i as int).drop_last() =~= term@.take(i - 1));
        assert(before.drop_last() =~= vec_views(parts@));
        if c == '"' {
            parts.push(part);
            part = Vec::new();
            assert(vec_views(parts@) =~= before);
            assert(part@ =~= seq![]);
        } else {
            part.push(c);
        }
    }
    assert(term@.take(i as int) =~= term@);
    let ghost before = vec_views(parts@);
    parts.push(part);
    assert(vec_views(parts@) =~= before.push(part@));
    parts
}

/// Split a text at its whitespace.
fn split_words(text: &Vec<char>) -> (r: Vec<Vec<char>>)
    ensures
        vec_views(r@) == words(text@),
{
    let mut done: Vec<Vec<char>> = Vec::new();
    let mut word: Vec<char> = Vec::new();
    let mut i: usize = 0;
    let ghost mut all: Seq<Seq<char>> = seq![];
    while i < text.len()
        invariant
            i <= text.len(),
            all == words(text@.take(i as int)),
            i > 0 && !whitespace(text@[i - 1]) ==> word.len() > 0,
            i == 0 || whitespace(text@[i - 1]) ==> word.len() == 0,
            if word.len() == 0 {
                vec_views(done@) == all
            } else {
                vec_views(done@).push(word@) == all
            },
        decreases text.len() - i,
    {
        let c = text[i];
        let ghost before = all;
        let ghost shorter = vec_views(done@);
        i = i + 1;
        proof {
            let now = text@.take(i as int);
            assert(now.drop_last() =~= text@.take(i - 1));
            if i > 1 {
                assert(now[now.len() - 2] == text@[i - 2]);
            }
            all = words(now);
            assert(shorter.push(word@).drop_last() =~= shorter);
        }
        if c.is_whitespace() {
            if word.len() > 0 {
                done.push(word);
                word = Vec::new();
                assert(vec_views(done@) =~= before);
            }
        } else {
            let ghost old_word = word@;
            word.push(c);
            assert(old_word.len() == 0 ==> word@ =~= seq![c]);
        }
    }
    assert(text@.take(i as int) =~= text@);
    if word.len() > 0 {
        let ghost shorter = vec_views(done@);
        done.push(word);
        assert(vec_views(done@) =~= shorter.push(word@));
    }
    done
}

/// The pieces of a search term.
pub fn scan(term: &str) -> (items: Vec<Item>)
    ensures
        item_views(items@) == items_of(term@),
{
    let chars = chars_of(term);
    let parts = split_quotes(&chars);
    let ghost views = quote_parts(term@);
    let mut items: Vec<Item> = Vec::new();
    let mut i: usize = 0;
    assert(item_views(items@) =~= items_of_parts(views, 0));
    while i < parts.len()
        invariant
            i <= parts.len(),
            views == vec_views(parts@),
            item_views(items@) == items_of_parts(views, i as int),
        decreases parts.len() - i,
    {
        let ghost before = item_views(items@);
        let part = &parts[i];
        assert(views[i as int] == part@);
        // Every second part was between quotes.
        if i % 2 == 1 {
            items.push(Item::Phrase(string_of(part, 0, part.len())));
            assert(part@.subrange(0, part.len() as int) =~= part@);
            assert(item_views(items@) =~= before + part_items(views, i as int));
        } else {
            let list = split_words(part);
            let ghost expected = part_items(views, i as int);
            let mut j: usize = 0;
            while j < list.len()
                invariant
                    i < parts.len(),
                    i % 2 == 0,
                    j <= list.len(),
                    views == vec_views(parts@),
                    views[i as int] == part@,
                    vec_views(list@) == words(part@),
                    expected == part_items(views, i as int),
                    item_views(items@) == before + expected.take(j as int),
                decreases list.len() - j,
            {
                let word = &list[j];
                assert(words(part@)[j as int] == word@);
                // The user may still be typing the last word, unless the term
                // ends with whitespace.
                proof {
                    if part@.len() == 0 {
                        assert(words(part@).len() == 0);
                    }
                }
                let last = i == parts.len() - 1 && j == list.len() - 1 && !part[part.len()
                    - 1].is_whitespace();
                let ghost so_far = item_views(items@);
                items.push(Item::Word { text: string_of(word, 0, word.len()), last });
                assert(word@.subrange(0, word.len() as int) =~= word@);
                assert(item_views(items@) =~= so_far.push(expected[j as int]));
                j = j + 1;
                assert(expected.take(j as int) =~= expected.take(j - 1).push(expected[j - 1]));
            }
            assert(expected.take(j as int) =~= expected);
        }
        i = i + 1;
    }
    items
}

/// How many dashes a word starts with.
pub open spec fn dashes(word: Seq<char>) -> int
    decreases word.len(),
{
    if word.len() > 0 && word[0] == '-' {
        1 + dashes(word.drop_first())
    } else {
        0
    }
}

/// A word without the dashes that it starts with.
pub open spec fn stripped(word: Seq<char>) -> Seq<char> {
    word.skip(dashes(word))
}

/// Whether a word is `or`, in upper or lower case.
pub open spec fn is_or(word: Seq<char>) -> bool {
    &&& word.len() == 2
    &&& word[0] == 'o' || word[0] == 'O'
    &&& word[1] == 'r' || word[1] == 'R'
}

/// Whether a word is `and`, in upper or lower case.
pub open spec fn is_and(word: Seq<char>) -> bool {
    &&& word.len() == 3
    &&& word[0] == 'a' || word[0] == 'A'
    &&& word[1] == 'n' || word[1] == 'N'
    &&& word[2] == 'd' || word[2] == 'D'
}

/// Whether a piece is nothing but dashes.
pub open spec fn only_dashes(item: ItemView) -> bool {
    item matches ItemView::Word { text, .. } && stripped(text).len() == 0
}

/// Whether the piece with index `i` is excluded: it is a word that starts with
/// a dash, or the piece before it is nothing but dashes.
pub open spec fn excluded(items: Seq<ItemView>, i: int) -> bool {
    ||| items[i] matches ItemView::Word { text, .. } && dashes(text) > 0
    ||| i > 0 && only_dashes(items[i - 1])
}

/// Something to look for, or not to find.
#[derive(Clone, Debug, PartialEq, Eq)]
pub struct Clause {
    pub text: String,
    /// It must not match.
    pub exclude: bool,
    /// For a word, whether the user may still be typing it.
    pub word: Option<bool>,
}

/// Something to look for, as a value.
pub struct ClauseView {
    pub text: Seq<char>,
    pub exclude: bool,
    pub word: Option<bool>,
}

impl View for Clause {
    type V = ClauseView;

    open spec fn view(&self) -> ClauseView {
        ClauseView { text: self.text@, exclude: self.exclude, word: self.word }
    }
}

pub open spec fn clause_views(clauses: Seq<Clause>) -> Seq<ClauseView> {
    clauses.map_values(|clause: Clause| clause@)
}

pub open spec fn alternative_views(alternatives: Seq<Vec<Clause>>) -> Seq<Seq<ClauseView>> {
    alternatives.map_values(|clauses: Vec<Clause>| clause_views(clauses@))
}

/// What a piece of a search term means.
pub enum Role {
    /// Nothing.
    Skip,
    /// The next alternative starts here.
    Or,
    /// Something to look for.
    Clause(ClauseView),
}

/// What the piece with index `i` means.
pub open spec fn role(items: Seq<ItemView>, i: int) -> Role {
    match items[i] {
        ItemView::Phrase(text) => Role::Clause(
            ClauseView { text, exclude: excluded(items, i), word: None },
        ),
        ItemView::Word { text, last } => {
            if only_dashes(items[i]) {
                Role::Skip
            } else if !excluded(items, i) && is_or(stripped(text)) {
                Role::Or
            } else if !excluded(items, i) && is_and(stripped(text)) {
                Role::Skip
            } else {
                Role::Clause(
                    ClauseView {
                        text: stripped(text),
                        exclude: excluded(items, i),
                        word: Some(last),
                    },
                )
            }
        },
    }
}

/// The alternatives that the first `n` pieces give, with the clauses of each.
pub open spec fn alternatives(items: Seq<ItemView>, n: int) -> Seq<Seq<ClauseView>>
    decreases n,
{
    if n <= 0 {
        seq![seq![]]
    } else {
        let before = alternatives(items, n - 1);
        match role(items, n - 1) {
            Role::Skip => before,
            Role::Or => before.push(seq![]),
            Role::Clause(clause) => before.drop_last().push(before.last().push(clause)),
        }
    }
}

/// The alternatives of a search term, with the clauses of each.
pub open spec fn alternatives_of(term: Seq<char>) -> Seq<Seq<ClauseView>> {
    alternatives(items_of(term), items_of(term).len() as int)
}

/// There is always an alternative.
pub proof fn lemma_alternatives_nonempty(items: Seq<ItemView>, n: int)
    ensures
        alternatives(items, n).len() > 0,
    decreases n,
{
    if n > 0 {
        lemma_alternatives_nonempty(items, n - 1);
    }
}

/// A word starts with the dashes up to the first other character.
pub proof fn lemma_dashes(word: Seq<char>, n: int)
    requires
        0 <= n <= word.len(),
        forall|i: int| 0 <= i < n ==> word[i] == '-',
        n < word.len() ==> word[n] != '-',
    ensures
        dashes(word) == n,
    decreases n,
{
    if n > 0 {
        lemma_dashes(word.drop_first(), n - 1);
    }
}

/// How many dashes a word starts with.
fn count_dashes(word: &Vec<char>) -> (n: usize)
    ensures
        n == dashes(word@),
        n <= word.len(),
{
    let mut n: usize = 0;
    while n < word.len() && word[n] == '-'
        invariant
            n <= word.len(),
            forall|i: int| 0 <= i < n ==> word[i] == '-',
        decreases word.len() - n,
    {
        n = n + 1;
    }
    proof {
        lemma_dashes(word@, n as int);
    }
    n
}

fn reads_or(word: &Vec<char>, from: usize) -> (r: bool)
    requires
        from <= word.len(),
    ensures
        r == is_or(word@.skip(from as int)),
{
    word.len() - from == 2 && (word[from] == 'o' || word[from] == 'O') && (word[from + 1] == 'r'
        || word[from + 1] == 'R')
}

fn reads_and(word: &Vec<char>, from: usize) -> (r: bool)
    requires
        from <= word.len(),
    ensures
        r == is_and(word@.skip(from as int)),
{
    word.len() - from == 3 && (word[from] == 'a' || word[from] == 'A') && (word[from + 1] == 'n'
        || word[from + 1] == 'N') && (word[from + 2] == 'd' || word[from + 2] == 'D')
}

/// The alternatives of a search term, with the clauses of each.
///
/// * Text in double quotes is a phrase. An unclosed quote makes the rest of
///   the term a phrase.
/// * A leading `-` excludes the next word or phrase.
/// * `or` separates alternatives, `and` is optional. Both are
///   case-insensitive.
///
/// Everything else is text. Words are only split at whitespace.
pub fn read(term: &str) -> (r: Vec<Vec<Clause>>)
    ensures
        alternative_views(r@) == alternatives_of(term@),
{
    let items = scan(term);
    let ghost views = items_of(term@);
    let mut done: Vec<Vec<Clause>> = Vec::new();
    let mut clauses: Vec<Clause> = Vec::new();
    let mut exclude = false;
    let mut i: usize = 0;
    assert(clause_views(clauses@) =~= seq![]);
    assert(alternative_views(done@).push(clause_views(clauses@)) =~= alternatives(views, 0));
    while i < items.len()
        invariant
            i <= items.len(),
            views == item_views(items@),
            alternative_views(done@).push(clause_views(clauses@)) == alternatives(
                views,
                i as int,
            ),
            exclude == (i > 0 && only_dashes(views[i - 1])),
        decreases items.len() - i,
    {
        let ghost before = alternative_views(done@);
        let ghost current = clause_views(clauses@);
        proof {
            assert(views[i as int] == items@[i as int]@);
            assert(before.push(current).drop_last() =~= before);
        }
        match &items[i] {
            Item::Phrase(text) => {
                clauses.push(Clause { text: text.clone(), exclude, word: None });
                exclude = false;
                assert(clause_views(clauses@) =~= current.push(
                    role(views, i as int)->Clause_0,
                ));
            },
            Item::Word { text, last } => {
                let chars = chars_of(text.as_str());
                let n = count_dashes(&chars);
                let dashed = exclude || n > 0;
                assert(dashed == excluded(views, i as int));
                assert(stripped(text@) == chars@.skip(n as int));
                if n == chars.len() {
                    // A lone `-` excludes what comes next, e.g. a phrase.
                    exclude = true;
                } else if !dashed && reads_or(&chars, n) {
                    done.push(clauses);
                    clauses = Vec::new();
                    exclude = false;
                    assert(alternative_views(done@) =~= before.push(current));
                    assert(clause_views(clauses@) =~= seq![]);
                } else if !dashed && reads_and(&chars, n) {
                    exclude = false;
                } else {
                    clauses.push(
                        Clause {
                            text: string_of(&chars, n, chars.len()),
                            exclude: dashed,
                            word: Some(*last),
                        },
                    );
                    exclude = false;
                    assert(chars@.subrange(n as int, chars.len() as int) =~= chars@.skip(n as int));
                    assert(clause_views(clauses@) =~= current.push(
                        role(views, i as int)->Clause_0,
                    ));
                }
            },
        }
        i = i + 1;
    }
    let ghost before = alternative_views(done@);
    let ghost current = clause_views(clauses@);
    done.push(clauses);
    assert(alternative_views(done@) =~= before.push(current));
    done
}

/// The parts of a term between its quotes have no quotes in them.
pub proof fn lemma_parts_unquoted(term: Seq<char>)
    ensures
        quote_parts(term).len() > 0,
        forall|k: int|
            0 <= k < quote_parts(term).len() ==> !(#[trigger] quote_parts(term)[k]).contains('"'),
    decreases term.len(),
{
    if term.len() > 0 {
        let before = quote_parts(term.drop_last());
        lemma_parts_unquoted(term.drop_last());
        let parts = quote_parts(term);
        assert forall|k: int| 0 <= k < parts.len() implies !(#[trigger] parts[k]).contains('"') by {
            if k < before.len() - 1 || term.last() == '"' {
                if k < before.len() {
                    assert(parts[k] == before[k]);
                } else {
                    assert(parts[k].len() == 0);
                }
            } else {
                assert(!before[k].contains('"'));
                assert(parts[k] == before[k].push(term.last()));
                assert forall|i: int| 0 <= i < parts[k].len() implies parts[k][i] != '"' by {
                    if i < before[k].len() {
                        assert(parts[k][i] == before[k][i]);
                        assert(before[k].contains(before[k][i]));
                    }
                }
            }
        }
    }
}

/// The words of a text are made of characters of the text.
proof fn lemma_words_within(text: Seq<char>, c: char)
    requires
        !text.contains(c),
    ensures
        forall|k: int| 0 <= k < words(text).len() ==> !(#[trigger] words(text)[k]).contains(c),
    decreases text.len(),
{
    if text.len() > 0 {
        let before = words(text.drop_last());
        assert forall|i: int| 0 <= i < text.len() implies #[trigger] text[i] != c by {
            assert(text.contains(text[i]));
        }
        assert(!text.drop_last().contains(c));
        lemma_words_within(text.drop_last(), c);
        let all = words(text);
        assert forall|k: int| 0 <= k < all.len() implies !(#[trigger] all[k]).contains(c) by {
            if k < before.len() && all[k] == before[k] {
            } else if k == before.len() {
                assert(all[k] =~= seq![text.last()]);
            } else {
                assert(!before[k].contains(c));
                assert(all[k] == before[k].push(text.last()));
                assert forall|i: int| 0 <= i < all[k].len() implies all[k][i] != c by {
                    if i < before[k].len() {
                        assert(all[k][i] == before[k][i]);
                        assert(before[k].contains(before[k][i]));
                    }
                }
            }
        }
    }
}

/// The text of a piece.
pub open spec fn item_text(item: ItemView) -> Seq<char> {
    match item {
        ItemView::Phrase(text) => text,
        ItemView::Word { text, .. } => text,
    }
}

proof fn lemma_items_unquoted(parts: Seq<Seq<char>>, n: int)
    requires
        0 <= n <= parts.len(),
        forall|k: int| 0 <= k < parts.len() ==> !(#[trigger] parts[k]).contains('"'),
    ensures
        forall|k: int|
            0 <= k < items_of_parts(parts, n).len() ==> !item_text(
                #[trigger] items_of_parts(parts, n)[k],
            ).contains('"'),
    decreases n,
{
    if n > 0 {
        lemma_items_unquoted(parts, n - 1);
        lemma_words_within(parts[n - 1], '"');
        let before = items_of_parts(parts, n - 1);
        let new = part_items(parts, n - 1);
        let all = items_of_parts(parts, n);
        assert(all =~= before + new);
        assert forall|k: int| 0 <= k < all.len() implies !item_text(#[trigger] all[k]).contains(
            '"',
        ) by {
            if k < before.len() {
                assert(all[k] == before[k]);
            } else {
                assert(all[k] == new[k - before.len()]);
            }
        }
    }
}

proof fn lemma_stripped_within(word: Seq<char>, c: char)
    requires
        !word.contains(c),
    ensures
        !stripped(word).contains(c),
        0 <= dashes(word) <= word.len(),
{
    lemma_dashes_bound(word);
    let rest = stripped(word);
    assert forall|i: int| 0 <= i < rest.len() implies rest[i] != c by {
        assert(rest[i] == word[i + dashes(word)]);
        assert(word.contains(word[i + dashes(word)]));
    }
}

proof fn lemma_dashes_bound(word: Seq<char>)
    ensures
        0 <= dashes(word) <= word.len(),
    decreases word.len(),
{
    if word.len() > 0 && word[0] == '-' {
        lemma_dashes_bound(word.drop_first());
    }
}

proof fn lemma_alternatives_unquoted(items: Seq<ItemView>, n: int)
    requires
        0 <= n <= items.len(),
        forall|k: int| 0 <= k < items.len() ==> !item_text(#[trigger] items[k]).contains('"'),
    ensures
        forall|i: int, j: int|
            0 <= i < alternatives(items, n).len() && 0 <= j < alternatives(items, n)[i].len()
                ==> !(#[trigger] alternatives(items, n)[i][j]).text.contains('"'),
    decreases n,
{
    if n > 0 {
        lemma_alternatives_unquoted(items, n - 1);
        lemma_alternatives_nonempty(items, n - 1);
        let before = alternatives(items, n - 1);
        let all = alternatives(items, n);
        assert(!item_text(items[n - 1]).contains('"'));
        lemma_stripped_within(item_text(items[n - 1]), '"');
        assert forall|i: int, j: int| 0 <= i < all.len() && 0 <= j < all[i].len() implies !(
        #[trigger] all[i][j]).text.contains('"') by {
            if i < before.len() && j < before[i].len() {
                assert(all[i][j] == before[i][j]);
            }
        }
    }
}

/// No clause of a search term has a quote in its text.
pub proof fn lemma_clauses_unquoted(term: Seq<char>)
    ensures
        forall|i: int, j: int|
            0 <= i < alternatives_of(term).len() && 0 <= j < alternatives_of(term)[i].len()
                ==> !(#[trigger] alternatives_of(term)[i][j]).text.contains('"'),
{
    let parts = quote_parts(term);
    lemma_parts_unquoted(term);
    lemma_items_unquoted(parts, parts.len() as int);
    let items = items_of(term);
    lemma_alternatives_unquoted(items, items.len() as int);
}

} // verus!
