//! The parser and compiled queries of one dialect, and the three operations
//! that parse a source and record what the queries find in it.

use vstd::prelude::*;
use crate::call_sites::{
    all_sites, call_site_entries, lemma_call_site_entries_bounded, lemma_call_site_entries_first,
    site_block, write_call_sites,
};
use crate::capture::{
    all_captures, capture_wf, lemma_all_captures_wf, matches_ordered, matches_within, matches_wf,
    MatchData,
};
use crate::chunks::lemma_retrieval_names;
use crate::text::is_prefix;
use crate::chunks::{chunk_block, chunk_entries, write_chunks};
use crate::layout::{block_at, blocks_written};
use crate::queries::{
    capture_names_of, query_source, query_text, QueryKind, CALL_SITES_QUERY_SRC, PARSE_QUERY_SRC,
    PARSE_QUERY_TSX_SRC, RETRIEVAL_QUERY_SRC,
};
use crate::scope::{kind_code, lemma_highlight_scopes, scope_code};
use crate::spans::{min_nat, names_view, span_record, write_spans};
use crate::ts::{
    grammar_tsx, grammar_typescript, parser_new, parser_parse, parser_reset,
    parser_set_language, query_capture_names, query_compiles, query_matches, query_new, ts_matches,
    CompiledQuery, TsParser,
};

verus! {

/// The grammar a parser state is for.
#[derive(Clone, Copy, Debug, PartialEq, Eq)]
pub enum Dialect {
    TypeScript,
    Tsx,
}

/// Why a parser state could not be set up.
#[derive(Clone, Copy, Debug, PartialEq, Eq)]
pub enum SetupError {
    /// The grammar was generated for a tree-sitter version that the parser
    /// does not accept.
    IncompatibleLanguage,
    /// A query did not compile against the grammar.
    InvalidQuery,
}

/// Whether the dialect is TSX.
pub open spec fn is_tsx(dialect: Dialect) -> bool {
    match dialect {
        Dialect::TypeScript => false,
        Dialect::Tsx => true,
    }
}

/// The highlight query of a dialect.
pub open spec fn highlight_kind(dialect: Dialect) -> QueryKind {
    match dialect {
        Dialect::TypeScript => QueryKind::Highlight,
        Dialect::Tsx => QueryKind::TsxHighlight,
    }
}

/// The highlight query source of a dialect.
pub open spec fn highlight_source(dialect: Dialect) -> Seq<char> {
    query_source(highlight_kind(dialect))
}

/// The highlight query of a dialect.
pub fn parse_query_source(dialect: Dialect) -> (q: &'static str)
    ensures
        q@ == highlight_source(dialect),
{
    match dialect {
        Dialect::TypeScript => PARSE_QUERY_SRC,
        Dialect::Tsx => PARSE_QUERY_TSX_SRC,
    }
}

/// Setting up a dialect succeeds when its highlight query, the retrieval
/// query and the call-site query all compile against its grammar.
pub open spec fn setup_succeeds(dialect: Dialect) -> bool {
    let tsx = is_tsx(dialect);
    &&& query_compiles(tsx, highlight_source(dialect))
    &&& query_compiles(tsx, RETRIEVAL_QUERY_SRC@)
    &&& query_compiles(tsx, CALL_SITES_QUERY_SRC@)
}

/// The highlight matches of a source.
pub open spec fn highlight_matches(dialect: Dialect, src: Seq<u8>) -> Seq<MatchData> {
    ts_matches(is_tsx(dialect), highlight_source(dialect), src)
}

/// The retrieval matches of a source.
pub open spec fn retrieval_matches(dialect: Dialect, src: Seq<u8>) -> Seq<MatchData> {
    ts_matches(is_tsx(dialect), RETRIEVAL_QUERY_SRC@, src)
}

/// The call-site matches of a source.
pub open spec fn call_site_matches(dialect: Dialect, src: Seq<u8>) -> Seq<MatchData> {
    ts_matches(is_tsx(dialect), CALL_SITES_QUERY_SRC@, src)
}

/// Each dialect reads sources with its own grammar: TSX sources with the
/// TSX grammar, TypeScript sources with the TypeScript grammar. The matches
/// that the operations record, and whether setting up succeeds, are those of
/// that grammar.
pub proof fn lemma_dialect_grammar(dialect: Dialect, src: Seq<u8>)
    ensures
        is_tsx(dialect) == (dialect == Dialect::Tsx),
        highlight_matches(dialect, src) == ts_matches(
            dialect == Dialect::Tsx,
            highlight_source(dialect),
            src,
        ),
        retrieval_matches(dialect, src) == ts_matches(
            dialect == Dialect::Tsx,
            RETRIEVAL_QUERY_SRC@,
            src,
        ),
        call_site_matches(dialect, src) == ts_matches(
            dialect == Dialect::Tsx,
            CALL_SITES_QUERY_SRC@,
            src,
        ),
        setup_succeeds(dialect) == (query_compiles(dialect == Dialect::Tsx, highlight_source(dialect))
            && query_compiles(dialect == Dialect::Tsx, RETRIEVAL_QUERY_SRC@) && query_compiles(
            dialect == Dialect::Tsx,
            CALL_SITES_QUERY_SRC@,
        )),
{
}

/// A parser for one dialect with its three compiled queries, and the
/// capture names of the highlight and retrieval queries.
pub struct ParserState {
    dialect: Dialect,
    parser: TsParser,
    parse_query: CompiledQuery,
    retrieval_query: CompiledQuery,
    call_sites_query: CompiledQuery,
    parse_cap_names: Vec<String>,
    retrieval_cap_names: Vec<String>,
}

impl ParserState {
    /// The dialect the state is for.
    pub closed spec fn dialect_of(&self) -> Dialect {
        self.dialect
    }

    /// The parser has the dialect's grammar, each query was compiled from
    /// its source for that grammar, and the name lists are its queries'
    /// capture names.
    pub closed spec fn wf(&self) -> bool {
        let tsx = is_tsx(self.dialect);
        &&& self.parser@ == tsx
        &&& self.parse_query@ == (tsx, highlight_kind(self.dialect))
        &&& self.retrieval_query@ == (tsx, QueryKind::Retrieval)
        &&& self.call_sites_query@ == (tsx, QueryKind::CallSites)
        &&& names_view(self.parse_cap_names@) == capture_names_of(highlight_kind(self.dialect))
        &&& names_view(self.retrieval_cap_names@) == capture_names_of(QueryKind::Retrieval)
    }

    /// Whether the state's parser has the TSX grammar.
    pub closed spec fn grammar_is_tsx(&self) -> bool {
        self.parser@
    }

    /// Whether all three of the state's queries were compiled for the
    /// grammar that `tsx` names (TSX when it holds, TypeScript otherwise).
    pub closed spec fn queries_for(&self, tsx: bool) -> bool {
        &&& self.parse_query@.0 == tsx
        &&& self.retrieval_query@.0 == tsx
        &&& self.call_sites_query@.0 == tsx
    }

    /// A well-formed state parses and queries with the grammar of its
    /// dialect: the TypeScript grammar for TypeScript, the TSX grammar for
    /// TSX.
    pub proof fn lemma_state_grammar(&self)
        requires
            self.wf(),
        ensures
            self.grammar_is_tsx() == (self.dialect_of() == Dialect::Tsx),
            self.queries_for(self.dialect_of() == Dialect::Tsx),
    {
    }

    /// The capture names of the state's highlight query.
    pub closed spec fn highlight_names(&self) -> Seq<Seq<char>> {
        names_view(self.parse_cap_names@)
    }

    /// The capture names of the state's retrieval query.
    pub closed spec fn retrieval_names(&self) -> Seq<Seq<char>> {
        names_view(self.retrieval_cap_names@)
    }

    /// A well-formed state holds its queries' capture names: each highlight
    /// name is a scope with a code in 1..=7 or 10, and each retrieval name
    /// either names a chunk of a kind with a nonzero code or names the name
    /// of one.
    pub proof fn lemma_names(&self)
        requires
            self.wf(),
        ensures
            self.highlight_names() == capture_names_of(highlight_kind(self.dialect_of())),
            self.retrieval_names() == capture_names_of(QueryKind::Retrieval),
            forall|i: int|
                0 <= i < self.highlight_names().len() ==> {
                    let c = scope_code(#[trigger] self.highlight_names()[i]);
                    1 <= c <= 7 || c == 10
                },
            forall|i: int|
                0 <= i < self.retrieval_names().len() ==> {
                    let n = #[trigger] self.retrieval_names()[i];
                    ||| is_prefix("chunk."@, n) && kind_code(n.skip("chunk."@.len() as int)) != 0
                    ||| is_prefix("name."@, n)
                },
    {
        lemma_highlight_scopes(highlight_kind(self.dialect));
        lemma_retrieval_names();
    }

    /// The capture names of the state's highlight query.
    pub fn highlight_capture_names(&self) -> (names: &Vec<String>)
        ensures
            names_view(names@) == self.highlight_names(),
    {
        &self.parse_cap_names
    }

    /// The capture names of the state's retrieval query.
    pub fn retrieval_capture_names(&self) -> (names: &Vec<String>)
        ensures
            names_view(names@) == self.retrieval_names(),
    {
        &self.retrieval_cap_names
    }

    /// The dialect the state is for.
    pub fn dialect(&self) -> (d: Dialect)
        ensures
            d == self.dialect_of(),
    {
        self.dialect
    }

    /// Sets up a parser for `dialect` and compiles its highlight query, the
    /// retrieval query and the call-site query for that grammar, keeping the
    /// capture names of the first two.
    pub fn new(dialect: Dialect) -> (r: Result<ParserState, SetupError>)
        ensures
            r is Ok <==> setup_succeeds(dialect),
            r matches Ok(st) ==> st.wf() && st.dialect_of() == dialect,
            r matches Err(e) ==> e == SetupError::InvalidQuery,
    {
        let grammar = match dialect {
            Dialect::TypeScript => grammar_typescript(),
            Dialect::Tsx => grammar_tsx(),
        };
        let parser = match parser_set_language(parser_new(), &grammar) {
            Ok(p) => p,
            Err(_) => {
                return Err(SetupError::IncompatibleLanguage);
            },
        };
        let kind = match dialect {
            Dialect::TypeScript => QueryKind::Highlight,
            Dialect::Tsx => QueryKind::TsxHighlight,
        };
        let parse_query = match query_new(&grammar, kind, query_text(kind)) {
            Ok(q) => q,
            Err(_) => {
                return Err(SetupError::InvalidQuery);
            },
        };
        let parse_cap_names = query_capture_names(&parse_query);
        let retrieval_query = match query_new(&grammar, QueryKind::Retrieval, RETRIEVAL_QUERY_SRC) {
            Ok(q) => q,
            Err(_) => {
                return Err(SetupError::InvalidQuery);
            },
        };
        let retrieval_cap_names = query_capture_names(&retrieval_query);
        let call_sites_query = match query_new(&grammar, QueryKind::CallSites, CALL_SITES_QUERY_SRC) {
            Ok(q) => q,
            Err(_) => {
                return Err(SetupError::InvalidQuery);
            },
        };
        Ok(
            ParserState {
                dialect,
                parser,
                parse_query,
                retrieval_query,
                call_sites_query,
                parse_cap_names,
                retrieval_cap_names,
            },
        )
    }

    /// Parses `src` afresh and runs `query` over the whole tree.
    fn run_query(parser: &mut TsParser, query: &CompiledQuery, src: &[u8]) -> (r: Option<
        Vec<MatchData>,
    >)
        requires
            old(parser)@ == query@.0,
        ensures
            final(parser)@ == old(parser)@,
            r is Some,
            r matches Some(ms) ==> ms@ == ts_matches(query@.0, query_source(query@.1), src@),
            r matches Some(ms) ==> matches_wf(ms@, capture_names_of(query@.1).len()),
            r matches Some(ms) ==> matches_within(ms@, src@.len()),
            query@.1 == QueryKind::CallSites ==> (r matches Some(ms) ==> forall|i: int|
                0 <= i < ms@.len() ==> (#[trigger] ms@[i]).captures@.len() == 1),
    {
        parser_reset(parser);
        let tree = match parser_parse(parser, src) {
            Some(t) => t,
            None => {
                return None;
            },
        };
        Some(query_matches(query, &tree))
    }

    /// Parses `src` and writes one 12-byte span record per highlight
    /// capture into `out` (see `write_spans`), at most `max_spans` of them,
    /// and returns how many it wrote. Every record it writes has a scope
    /// code in 1..=7 or 10.
    pub fn parse_spans(&mut self, src: &[u8], max_spans: usize, out: &mut Vec<u8>) -> (count: usize)
        requires
            old(self).wf(),
            12 * max_spans <= old(out)@.len(),
        ensures
            final(self).wf(),
            final(self).dialect_of() == old(self).dialect_of(),
            ({
                let d = old(self).dialect_of();
                let ms = highlight_matches(d, src@);
                let names = capture_names_of(highlight_kind(d));
                &&& count == min_nat(all_captures(ms).len(), max_spans as nat)
                &&& blocks_written(
                    old(out)@,
                    final(out)@,
                    12,
                    count as nat,
                    |k: int, b: Seq<u8>| span_record(all_captures(ms)[k], names),
                )
                &&& forall|k: int|
                    0 <= k < count ==> {
                        let c = #[trigger] block_at(final(out)@, k, 12)[8];
                        1 <= c <= 7 || c == 10
                    }
            }),
    {
        let ghost d = self.dialect;
        let ms = match Self::run_query(&mut self.parser, &self.parse_query, src) {
            Some(ms) => ms,
            None => {
                return 0;
            },
        };
        let count = write_spans(&ms, &self.parse_cap_names, max_spans, out);
        proof {
            let names = capture_names_of(highlight_kind(d));
            lemma_all_captures_wf(ms@, names.len());
            lemma_highlight_scopes(highlight_kind(d));
            assert forall|k: int| 0 <= k < count implies {
                let c = #[trigger] block_at(out@, k, 12)[8];
                1 <= c <= 7 || c == 10
            } by {
                let c = all_captures(ms@)[k];
                assert(capture_wf(c, names.len()));
                assert(block_at(out@, k, 12) == span_record(c, names));
                assert(span_record(c, names)[8] == scope_code(names[c.index as int]));
            }
        }
        count
    }

    /// Parses `src` and writes one 104-byte record per retrieval chunk into
    /// `out` (see `write_chunks`), at most `max_chunks` of them, and returns
    /// how many it wrote.
    pub fn retrieval_chunks(&mut self, src: &[u8], max_chunks: usize, out: &mut Vec<u8>) -> (count:
        usize)
        requires
            old(self).wf(),
            104 * max_chunks <= old(out)@.len(),
        ensures
            final(self).wf(),
            final(self).dialect_of() == old(self).dialect_of(),
            ({
                let ms = retrieval_matches(old(self).dialect_of(), src@);
                let names = capture_names_of(QueryKind::Retrieval);
                &&& count == min_nat(chunk_entries(ms, names, src@).len(), max_chunks as nat)
                &&& blocks_written(
                    old(out)@,
                    final(out)@,
                    104,
                    count as nat,
                    |k: int, b: Seq<u8>| chunk_block(chunk_entries(ms, names, src@)[k], b),
                )
            }),
    {
        let ms = match Self::run_query(&mut self.parser, &self.retrieval_query, src) {
            Some(ms) => ms,
            None => {
                return 0;
            },
        };
        write_chunks(&ms, &self.retrieval_cap_names, src, max_chunks, out)
    }

    /// Parses `src` and writes one 68-byte record per call site into `out`
    /// (see `write_call_sites`), the first `max_sites` call sites of the
    /// source (all of them when there are fewer), and returns how many it
    /// wrote.
    pub fn call_sites(&mut self, src: &[u8], max_sites: usize, out: &mut Vec<u8>) -> (count: usize)
        requires
            old(self).wf(),
            68 * max_sites <= old(out)@.len(),
        ensures
            final(self).wf(),
            final(self).dialect_of() == old(self).dialect_of(),
            ({
                let sites = all_sites(call_site_matches(old(self).dialect_of(), src@), src@);
                &&& count == min_nat(sites.len(), max_sites as nat)
                &&& blocks_written(
                    old(out)@,
                    final(out)@,
                    68,
                    count as nat,
                    |k: int, b: Seq<u8>| site_block(sites[k], b),
                )
            }),
    {
        let ms = match Self::run_query(&mut self.parser, &self.call_sites_query, src) {
            Some(ms) => ms,
            None => {
                return 0;
            },
        };
        proof {
            assert(matches_ordered(ms@)) by {
                assert forall|i: int, j: int|
                    0 <= i < ms@.len() && 0 <= j < ms@[i].captures@.len() implies (
                    #[trigger] ms@[i].captures@[j]).start <= ms@[i].captures@[j].end by {
                    assert(capture_wf(ms@[i].captures@[j], capture_names_of(QueryKind::CallSites).len()));
                }
            }
            lemma_call_site_entries_bounded(ms@, src@, max_sites as nat);
            lemma_call_site_entries_first(ms@, src@, max_sites as nat);
        }
        let count = write_call_sites(&ms, src, max_sites, out);
        proof {
            let sites = all_sites(ms@, src@);
            let entries = call_site_entries(ms@, src@, max_sites as nat);
            assert forall|k: int| 0 <= k < count implies #[trigger] entries[k] == sites[k] by {}
            assert(blocks_written(
                old(out)@,
                out@,
                68,
                count as nat,
                |k: int, b: Seq<u8>| site_block(sites[k], b),
            )) by {
                assert forall|k: int| 0 <= k < count implies #[trigger] block_at(out@, k, 68)
                    == site_block(sites[k], block_at(old(out)@, k, 68)) by {
                    assert(entries[k] == sites[k]);
                }
            }
        }
        count
    }
}

} // verus!
