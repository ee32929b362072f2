# seshat-index

The search index of an event store: what goes into the index for an event, what
a search term means, and how the pages of a search follow each other. The search
engine underneath is [tantivy](https://docs.rs/tantivy).

`src/` is the library. Every function states its behaviour in `requires` and
`ensures`, and Verus proves it. What the search engine, the LRU cache and the
UUID crate do is stated next to the few functions that call them.

| Module | What it holds |
| --- | --- |
| `script_tokenizer` | words, and overlapping pairs of Chinese, Japanese and Korean characters |
| `grammar`, `grammar_laws` | the pieces of a search term: words, phrases, `-`, `or`, `and` |
| `search_syntax`, `search_laws` | the query for a search term, with prefixes and typos |
| `query` | queries, and which documents they select |
| `parser`, `analysis`, `analysis_laws` | the query parser and the tokenizers of the search engine |
| `schema`, `document` | the fields of the index, and what it stores of an event |
| `index`, `index_laws` | the settings of an index, and the query for a search with its keys and its room filter |
| `paging`, `search`, `search_cache` | the pages of a search, and the searches that can be continued |
| `writer` | when changes are committed |

The public proof functions named `law_...` state what holds across functions:
that a room filter cannot be widened, that pages neither repeat nor skip an
event, that a kept search can be continued, and so on.

`app/` puts the library on top of an index on disk.
