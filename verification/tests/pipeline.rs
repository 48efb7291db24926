use basalt_plugin_parser_typescript::queries::{
    query_text, QueryKind, CALL_SITES_QUERY_SRC, PARSE_QUERY_SRC, PARSE_QUERY_TSX_SRC,
    RETRIEVAL_QUERY_SRC,
};
use basalt_plugin_parser_typescript::scope::{kind_byte, scope_id_for};
use basalt_plugin_parser_typescript::state::{parse_query_source, Dialect, ParserState};
use tree_sitter::{Parser, Query, QueryCursor};

fn state(dialect: Dialect) -> ParserState {
    ParserState::new(dialect).ok().unwrap()
}

fn records(out: &[u8], width: usize, n: usize) -> Vec<Vec<u8>> {
    (0..n).map(|k| out[k * width..(k + 1) * width].to_vec()).collect()
}

fn grammars() -> Vec<tree_sitter::Language> {
    vec![tree_sitter_typescript::language_typescript(), tree_sitter_typescript::language_tsx()]
}

#[test]
fn both_dialects_set_up() {
    assert!(state(Dialect::TypeScript).dialect() == Dialect::TypeScript);
    assert!(state(Dialect::Tsx).dialect() == Dialect::Tsx);
}

#[test]
fn built_state_names_have_codes() {
    for d in [Dialect::TypeScript, Dialect::Tsx] {
        let st = state(d);
        let hl: Vec<&str> = st.highlight_capture_names().iter().map(|s| s.as_str()).collect();
        assert_eq!(hl, ["keyword", "string", "number", "comment", "type", "function", "variable", "operator"]);
        for n in &hl {
            let c = scope_id_for(n);
            assert!((1..=7).contains(&c) || c == 10);
        }
        let rt: Vec<&str> = st.retrieval_capture_names().iter().map(|s| s.as_str()).collect();
        assert_eq!(rt, ["name.function", "chunk.function", "name.type", "chunk.type", "name.module", "chunk.module"]);
        for n in &rt {
            match n.strip_prefix("chunk.") {
                Some(k) => assert_ne!(kind_byte(k), 0),
                None => assert!(n.starts_with("name.")),
            }
        }
    }
}

#[test]
fn query_sources_by_dialect_and_kind() {
    assert_eq!(parse_query_source(Dialect::TypeScript), PARSE_QUERY_SRC);
    assert_eq!(parse_query_source(Dialect::Tsx), PARSE_QUERY_TSX_SRC);
    assert_eq!(query_text(QueryKind::Highlight), PARSE_QUERY_SRC);
    assert_eq!(query_text(QueryKind::TsxHighlight), PARSE_QUERY_TSX_SRC);
    assert_eq!(query_text(QueryKind::Retrieval), RETRIEVAL_QUERY_SRC);
    assert_eq!(query_text(QueryKind::CallSites), CALL_SITES_QUERY_SRC);
    assert!(PARSE_QUERY_TSX_SRC.starts_with(PARSE_QUERY_SRC.trim_end()));
}

#[test]
fn grammars_are_accepted_and_queries_compile() {
    for lang in grammars() {
        let mut parser = Parser::new();
        assert!(parser.set_language(lang).is_ok());
        assert!(Query::new(lang, RETRIEVAL_QUERY_SRC).is_ok());
        assert!(Query::new(lang, CALL_SITES_QUERY_SRC).is_ok());
    }
    assert!(Query::new(tree_sitter_typescript::language_typescript(), PARSE_QUERY_SRC).is_ok());
    assert!(Query::new(tree_sitter_typescript::language_tsx(), PARSE_QUERY_TSX_SRC).is_ok());
}

#[test]
fn each_call_site_match_has_one_capture() {
    for lang in grammars() {
        let mut parser = Parser::new();
        parser.set_language(lang).unwrap();
        let q = Query::new(lang, CALL_SITES_QUERY_SRC).unwrap();
        for src in ["foo(1); a.bar(); x.y.z(q(r()));", "", "((((", "f(g(h(i)))\n.k()"] {
            parser.reset();
            let tree = parser.parse(src.as_bytes(), None).unwrap();
            let mut cursor = QueryCursor::new();
            let mut n = 0;
            for m in cursor.matches(&q, tree.root_node(), src.as_bytes()) {
                assert_eq!(m.captures.len(), 1);
                n += 1;
            }
            if src.starts_with("foo") {
                assert_eq!(n, 5);
            }
        }
    }
}

#[test]
fn spans_of_a_const_declaration() {
    let mut st = state(Dialect::TypeScript);
    let mut out = vec![0u8; 12 * 16];
    let n = st.parse_spans(b"const x = 1;", 16, &mut out);
    let recs = records(&out, 12, n);
    assert!(recs.contains(&vec![0, 0, 0, 0, 5, 0, 0, 0, 1, 0, 0, 0]));
    assert!(recs.contains(&vec![6, 0, 0, 0, 1, 0, 0, 0, 10, 0, 0, 0]));
    assert!(recs.contains(&vec![8, 0, 0, 0, 1, 0, 0, 0, 7, 0, 0, 0]));
    assert!(recs.contains(&vec![10, 0, 0, 0, 1, 0, 0, 0, 3, 0, 0, 0]));
    assert_eq!(n, 4);
    assert!(out[48..].iter().all(|&b| b == 0));
}

#[test]
fn spans_of_named_literals_and_parameters() {
    let mut st = state(Dialect::TypeScript);
    let src = "function f(a, b?) { return this ?? null; }";
    let mut out = vec![0u8; 12 * 64];
    let n = st.parse_spans(src.as_bytes(), 64, &mut out);
    let recs = records(&out, 12, n);
    // `this` at 27 and `null` at 35 are keywords; `a` at 11 and `b` at 14 are variables.
    assert!(recs.contains(&vec![27, 0, 0, 0, 4, 0, 0, 0, 1, 0, 0, 0]));
    assert!(recs.contains(&vec![35, 0, 0, 0, 4, 0, 0, 0, 1, 0, 0, 0]));
    assert!(recs.contains(&vec![11, 0, 0, 0, 1, 0, 0, 0, 10, 0, 0, 0]));
    assert!(recs.contains(&vec![14, 0, 0, 0, 1, 0, 0, 0, 10, 0, 0, 0]));
    assert!(recs.iter().all(|r| r[8] != 0));
}

#[test]
fn spans_respect_the_limit() {
    let mut st = state(Dialect::TypeScript);
    let mut out = vec![0u8; 24];
    let n = st.parse_spans(b"const x = 1; let y = 'a'; // c", 2, &mut out);
    assert_eq!(n, 2);
}

#[test]
fn spans_of_empty_source() {
    let mut st = state(Dialect::TypeScript);
    let mut out = vec![3u8; 48];
    assert_eq!(st.parse_spans(b"", 4, &mut out), 0);
    assert_eq!(out, vec![3u8; 48]);
}

#[test]
fn retrieval_chunks_of_declarations() {
    let mut st = state(Dialect::TypeScript);
    let src = "function foo() {}\nclass Bar {}\n";
    let mut out = vec![0u8; 104 * 8];
    let n = st.retrieval_chunks(src.as_bytes(), 8, &mut out);
    let recs = records(&out, 104, n);
    assert_eq!(n, 2);
    assert_eq!(&recs[0][0..8], &[0, 0, 0, 0, 17, 0, 0, 0]);
    assert_eq!(&recs[0][8..21], b"function foo\0");
    assert_eq!(recs[0][103], 3);
    assert_eq!(&recs[1][0..8], &[18, 0, 0, 0, 12, 0, 0, 0]);
    assert_eq!(&recs[1][8..17], b"type Bar\0");
    assert_eq!(recs[1][103], 2);
}

#[test]
fn call_sites_of_calls() {
    let mut st = state(Dialect::TypeScript);
    let src = "foo(1); a.bar();";
    let mut out = vec![0u8; 68 * 4];
    let n = st.call_sites(src.as_bytes(), 4, &mut out);
    let recs = records(&out, 68, n);
    assert_eq!(n, 2);
    assert_eq!(&recs[0][0..8], &[0, 0, 0, 0, b'f', b'o', b'o', 0]);
    assert_eq!(&recs[1][0..8], &[10, 0, 0, 0, b'b', b'a', b'r', 0]);
}

#[test]
fn call_sites_stop_at_the_limit() {
    let mut st = state(Dialect::TypeScript);
    let mut out = vec![7u8; 68];
    assert_eq!(st.call_sites(b"f(); g();", 1, &mut out), 1);
    assert_eq!(&out[0..6], &[0, 0, 0, 0, b'f', 0]);
    assert!(out[6..].iter().all(|&b| b == 7));
}

#[test]
fn tsx_spans_name_jsx_elements_as_types() {
    let mut st = state(Dialect::Tsx);
    let mut out = vec![0u8; 12 * 32];
    let n = st.parse_spans(b"const e = <div></div>;", 32, &mut out);
    let recs = records(&out, 12, n);
    assert!(recs.contains(&vec![11, 0, 0, 0, 3, 0, 0, 0, 5, 0, 0, 0]));
    assert!(recs.contains(&vec![17, 0, 0, 0, 3, 0, 0, 0, 5, 0, 0, 0]));
}
