//! The tree-sitter queries that the library runs.

use vstd::prelude::*;

verus! {

/// Highlight query for TypeScript.
pub const PARSE_QUERY_SRC: &'static str = r#"
    "import" @keyword "export" @keyword "from" @keyword
    "const" @keyword "let" @keyword "var" @keyword
    "type" @keyword "interface" @keyword "class" @keyword
    "function" @keyword "return" @keyword
    "async" @keyword "await" @keyword
    "extends" @keyword "implements" @keyword
    "new" @keyword (this) @keyword
    "typeof" @keyword "keyof" @keyword
    "in" @keyword "of" @keyword "instanceof" @keyword
    "yield" @keyword "throw" @keyword
    "try" @keyword "catch" @keyword "finally" @keyword
    "break" @keyword "continue" @keyword
    "switch" @keyword "case" @keyword "default" @keyword
    "if" @keyword "else" @keyword
    "for" @keyword "while" @keyword "do" @keyword
    "delete" @keyword "void" @keyword
    "enum" @keyword "declare" @keyword "abstract" @keyword
    "readonly" @keyword "override" @keyword "static" @keyword
    "public" @keyword "private" @keyword "protected" @keyword
    (null) @keyword (undefined) @keyword (true) @keyword (false) @keyword
    (string) @string
    (template_string) @string
    (number) @number
    (comment) @comment
    (type_identifier) @type
    (predefined_type) @type
    (function_declaration name: (identifier) @function)
    (method_definition name: (property_identifier) @function)
    (variable_declarator name: (identifier) value: (arrow_function) @function)
    (variable_declarator name: (identifier) @variable)
    (formal_parameters (required_parameter pattern: (identifier) @variable))
    (formal_parameters (optional_parameter pattern: (identifier) @variable))
    "+" @operator "-" @operator "*" @operator "/" @operator
    "%" @operator "=" @operator "+=" @operator "-=" @operator
    "==" @operator "!=" @operator "<" @operator ">" @operator
    "&&" @operator "||" @operator "!" @operator
    "?" @operator "??" @operator "=>" @operator
    "===" @operator "!==" @operator "<=" @operator ">=" @operator
"#;

/// Highlight query for TSX: the TypeScript one and JSX element names.
pub const PARSE_QUERY_TSX_SRC: &'static str = r#"
    "import" @keyword "export" @keyword "from" @keyword
    "const" @keyword "let" @keyword "var" @keyword
    "type" @keyword "interface" @keyword "class" @keyword
    "function" @keyword "return" @keyword
    "async" @keyword "await" @keyword
    "extends" @keyword "implements" @keyword
    "new" @keyword (this) @keyword
    "typeof" @keyword "keyof" @keyword
    "in" @keyword "of" @keyword "instanceof" @keyword
    "yield" @keyword "throw" @keyword
    "try" @keyword "catch" @keyword "finally" @keyword
    "break" @keyword "continue" @keyword
    "switch" @keyword "case" @keyword "default" @keyword
    "if" @keyword "else" @keyword
    "for" @keyword "while" @keyword "do" @keyword
    "delete" @keyword "void" @keyword
    "enum" @keyword "declare" @keyword "abstract" @keyword
    "readonly" @keyword "override" @keyword "static" @keyword
    "public" @keyword "private" @keyword "protected" @keyword
    (null) @keyword (undefined) @keyword (true) @keyword (false) @keyword
    (string) @string
    (template_string) @string
    (number) @number
    (comment) @comment
    (type_identifier) @type
    (predefined_type) @type
    (function_declaration name: (identifier) @function)
    (method_definition name: (property_identifier) @function)
    (variable_declarator name: (identifier) value: (arrow_function) @function)
    (variable_declarator name: (identifier) @variable)
    (formal_parameters (required_parameter pattern: (identifier) @variable))
    (formal_parameters (optional_parameter pattern: (identifier) @variable))
    "+" @operator "-" @operator "*" @operator "/" @operator
    "%" @operator "=" @operator "+=" @operator "-=" @operator
    "==" @operator "!=" @operator "<" @operator ">" @operator
    "&&" @operator "||" @operator "!" @operator
    "?" @operator "??" @operator "=>" @operator
    "===" @operator "!==" @operator "<=" @operator ">=" @operator
    (jsx_opening_element name: (_) @type)
    (jsx_closing_element name: (_) @type)
"#;

/// Retrieval query: declarations as `chunk.<kind>` with their names as `name.<kind>`.
pub const RETRIEVAL_QUERY_SRC: &'static str = r#"
    (function_declaration name: (_) @name.function) @chunk.function
    (class_declaration name: (_) @name.type) @chunk.type
    (interface_declaration name: (_) @name.type) @chunk.type
    (type_alias_declaration name: (_) @name.type) @chunk.type
    (enum_declaration name: (_) @name.type) @chunk.type
    (lexical_declaration (variable_declarator name: (_) @name.function value: (arrow_function))) @chunk.function
    (export_statement declaration: (function_declaration name: (_) @name.function)) @chunk.function
    (module name: (_) @name.module) @chunk.module
"#;

/// Call-site query: the callee of each call as `callee`.
pub const CALL_SITES_QUERY_SRC: &'static str = r#"
    (call_expression function: (identifier) @callee)
    (call_expression function: (member_expression property: (property_identifier) @callee))
"#;

/// The library's queries.
#[derive(Clone, Copy, Debug, PartialEq, Eq)]
pub enum QueryKind {
    /// The TypeScript highlight query.
    Highlight,
    /// The TSX highlight query.
    TsxHighlight,
    /// The retrieval query.
    Retrieval,
    /// The call-site query.
    CallSites,
}

/// The source of each of the library's queries.
pub open spec fn query_source(kind: QueryKind) -> Seq<char> {
    match kind {
        QueryKind::Highlight => PARSE_QUERY_SRC@,
        QueryKind::TsxHighlight => PARSE_QUERY_TSX_SRC@,
        QueryKind::Retrieval => RETRIEVAL_QUERY_SRC@,
        QueryKind::CallSites => CALL_SITES_QUERY_SRC@,
    }
}

/// The source of one of the library's queries.
pub fn query_text(kind: QueryKind) -> (s: &'static str)
    ensures
        s@ == query_source(kind),
{
    match kind {
        QueryKind::Highlight => PARSE_QUERY_SRC,
        QueryKind::TsxHighlight => PARSE_QUERY_TSX_SRC,
        QueryKind::Retrieval => RETRIEVAL_QUERY_SRC,
        QueryKind::CallSites => CALL_SITES_QUERY_SRC,
    }
}

/// The capture names of each of the library's queries, in the order in
/// which they first appear in its source (the order in which tree-sitter
/// numbers them).
pub open spec fn capture_names_of(kind: QueryKind) -> Seq<Seq<char>> {
    match kind {
        QueryKind::Highlight | QueryKind::TsxHighlight => seq![
            "keyword"@,
            "string"@,
            "number"@,
            "comment"@,
            "type"@,
            "function"@,
            "variable"@,
            "operator"@,
        ],
        QueryKind::Retrieval => seq![
            "name.function"@,
            "chunk.function"@,
            "name.type"@,
            "chunk.type"@,
            "name.module"@,
            "chunk.module"@,
        ],
        QueryKind::CallSites => seq!["callee"@],
    }
}

} // verus!
