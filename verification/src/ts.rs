//! The calls into tree-sitter and the TypeScript grammar that the library
//! makes, and the handles that record what each outside value was made from.

use vstd::prelude::*;
use tree_sitter::{Language, LanguageError, Parser, Query, QueryCursor, QueryError, Tree};
use crate::capture::{matches_wf, matches_within, Capture, MatchData};
use crate::queries::{capture_names_of, query_source, QueryKind};
use crate::spans::names_view;

verus! {

/// `tree_sitter::Language`: a grammar handle, carried through unread.
#[verifier::external_type_specification]
#[verifier::external_body]
pub struct ExLanguage(Language);

/// `tree_sitter::LanguageError`: why a grammar was refused, carried through unread.
#[verifier::external_type_specification]
#[verifier::external_body]
pub struct ExLanguageError(LanguageError);

/// `tree_sitter::Parser`: a parser, used only through the wrappers below.
#[verifier::external_type_specification]
#[verifier::external_body]
pub struct ExParser(Parser);

/// `tree_sitter::Query`: a compiled query, used only through the wrappers below.
#[verifier::external_type_specification]
#[verifier::external_body]
pub struct ExQuery(Query);

/// `tree_sitter::QueryError`: why a query did not compile, carried through unread.
#[verifier::external_type_specification]
#[verifier::external_body]
pub struct ExQueryError(QueryError);

/// `tree_sitter::Tree`: a syntax tree, used only through the wrappers below.
#[verifier::external_type_specification]
#[verifier::external_body]
pub struct ExTree(Tree);

/// Whether a query source compiles against the grammar: what `Query::new`
/// decides from the grammar and the source alone.
pub uninterp spec fn query_compiles(tsx: bool, source: Seq<char>) -> bool;

/// The matches of a query over the syntax tree of `text`, as
/// `QueryCursor::matches` yields them from the root node: a function of the
/// grammar, the query source and the text.
pub uninterp spec fn ts_matches(tsx: bool, source: Seq<char>, text: Seq<u8>) -> Seq<MatchData>;

/// A grammar, and which of the two it is.
pub struct Grammar {
    language: Language,
    tsx: bool,
}

impl View for Grammar {
    type V = bool;

    /// `true` for TSX, `false` for TypeScript.
    closed spec fn view(&self) -> bool {
        self.tsx
    }
}

/// A parser with a grammar assigned, and which grammar it is.
pub struct TsParser {
    parser: Parser,
    tsx: bool,
}

impl View for TsParser {
    type V = bool;

    /// The grammar assigned to the parser.
    closed spec fn view(&self) -> bool {
        self.tsx
    }
}

/// A compiled query, with the grammar and which of the library's queries it
/// was compiled from.
pub struct CompiledQuery {
    query: Query,
    tsx: bool,
    kind: QueryKind,
}

impl View for CompiledQuery {
    type V = (bool, QueryKind);

    /// The grammar and the query the query was compiled from.
    closed spec fn view(&self) -> (bool, QueryKind) {
        (self.tsx, self.kind)
    }
}

/// A syntax tree, with the grammar and the text it was parsed from.
pub struct TsTree<'a> {
    tree: Tree,
    tsx: bool,
    text: &'a [u8],
}

impl<'a> View for TsTree<'a> {
    type V = (bool, Seq<u8>);

    /// The grammar and the text the tree was parsed from.
    closed spec fn view(&self) -> (bool, Seq<u8>) {
        (self.tsx, self.text@)
    }
}

/// `tree_sitter_typescript::language_typescript`: the TypeScript grammar.
#[verifier::external_body]
pub(crate) fn grammar_typescript() -> (g: Grammar)
    ensures
        g@ == false,
{
    Grammar { language: tree_sitter_typescript::language_typescript(), tsx: false }
}

/// `tree_sitter_typescript::language_tsx`: the TSX grammar.
#[verifier::external_body]
pub(crate) fn grammar_tsx() -> (g: Grammar)
    ensures
        g@ == true,
{
    Grammar { language: tree_sitter_typescript::language_tsx(), tsx: true }
}

/// `Parser::new`: a parser with no grammar assigned.
#[verifier::external_body]
pub(crate) fn parser_new() -> Parser {
    Parser::new()
}

/// `Parser::set_language`: assigns the grammar to the parser. It succeeds
/// when the grammar's ABI version lies within what tree-sitter accepts, as
/// both grammars' version (14) does (tree-sitter accepts 13 to 14).
#[verifier::external_body]
pub(crate) fn parser_set_language(parser: Parser, grammar: &Grammar) -> (r: Result<
    TsParser,
    LanguageError,
>)
    ensures
        r is Ok,
        r matches Ok(p) ==> p@ == grammar@,
{
    let mut parser = parser;
    match parser.set_language(grammar.language) {
        Ok(()) => Ok(TsParser { parser, tsx: grammar.tsx }),
        Err(e) => Err(e),
    }
}

/// `Query::new`: compiles the source of one of the library's queries for a
/// grammar, which succeeds exactly when the source compiles against it.
/// Only the library's own sources are admitted: on some malformed sources
/// `Query::new` panics.
#[verifier::external_body]
pub(crate) fn query_new(grammar: &Grammar, kind: QueryKind, source: &'static str) -> (r: Result<
    CompiledQuery,
    QueryError,
>)
    requires
        source@ == query_source(kind),
    ensures
        r is Ok <==> query_compiles(grammar@, source@),
        r matches Ok(q) ==> q@ == (grammar@, kind),
{
    match Query::new(grammar.language, source) {
        Ok(query) => Ok(CompiledQuery { query, tsx: grammar.tsx, kind }),
        Err(e) => Err(e),
    }
}

/// `Query::capture_names`: the query's capture names, each copied into an
/// owned `String`: the names that its source gives captures, in the order
/// of their first appearance.
#[verifier::external_body]
pub(crate) fn query_capture_names(query: &CompiledQuery) -> (names: Vec<String>)
    ensures
        names_view(names@) == capture_names_of(query@.1),
{
    query.query.capture_names().to_vec()
}

/// `Parser::reset`: discards any partially finished parse.
#[verifier::external_body]
pub(crate) fn parser_reset(parser: &mut TsParser)
    ensures
        final(parser)@ == old(parser)@,
{
    parser.parser.reset()
}

/// `Parser::parse` with no old tree: the syntax tree of `text`. It returns
/// `None` only for a parser without a grammar, or on a timeout or a
/// cancellation flag, none of which a `TsParser` has.
#[verifier::external_body]
pub(crate) fn parser_parse<'a>(parser: &mut TsParser, text: &'a [u8]) -> (r: Option<TsTree<'a>>)
    ensures
        final(parser)@ == old(parser)@,
        r is Some,
        r matches Some(t) ==> t@ == (old(parser)@, text@),
{
    match parser.parser.parse(text, None) {
        Some(tree) => Some(TsTree { tree, tsx: parser.tsx, text }),
        None => None,
    }
}

/// `QueryCursor::matches`, run with a fresh cursor from the tree's root node
/// over the text the tree was parsed from: every match, in the order that
/// tree-sitter yields them, each capture given as its name index and the
/// start and end bytes of its node. Each capture index is that of one of
/// the query's capture names, and each node lies within the text. Every
/// pattern of the call-site query has one capture, so each of its matches
/// carries one.
#[verifier::external_body]
pub(crate) fn query_matches(query: &CompiledQuery, tree: &TsTree) -> (r: Vec<MatchData>)
    requires
        query@.0 == tree@.0,
    ensures
        r@ == ts_matches(query@.0, query_source(query@.1), tree@.1),
        matches_wf(r@, capture_names_of(query@.1).len()),
        matches_within(r@, tree@.1.len()),
        query@.1 == QueryKind::CallSites ==> forall|i: int|
            0 <= i < r@.len() ==> (#[trigger] r@[i]).captures@.len() == 1,
{
    let mut cursor = QueryCursor::new();
    let mut found = Vec::new();
    for m in cursor.matches(&query.query, tree.tree.root_node(), tree.text) {
        let mut captures = Vec::new();
        for c in m.captures {
            captures.push(Capture { index: c.index, start: c.node.start_byte(), end: c.node.end_byte() });
        }
        found.push(MatchData { captures });
    }
    found
}

} // verus!
