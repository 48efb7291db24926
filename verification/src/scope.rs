//! Highlight scopes and retrieval kinds, and their byte codes.

use vstd::prelude::*;
use crate::queries::{capture_names_of, QueryKind};
use crate::text::chars_eq;

verus! {

/// Scope code of a keyword.
pub const SCOPE_KEYWORD: u8 = 1;
/// Scope code of a string literal.
pub const SCOPE_STRING: u8 = 2;
/// Scope code of a numeric literal.
pub const SCOPE_NUMBER: u8 = 3;
/// Scope code of a comment.
pub const SCOPE_COMMENT: u8 = 4;
/// Scope code of a type name.
pub const SCOPE_TYPE: u8 = 5;
/// Scope code of a function name.
pub const SCOPE_FUNCTION: u8 = 6;
/// Scope code of an operator.
pub const SCOPE_OPERATOR: u8 = 7;
/// Scope code of a variable.
pub const SCOPE_VARIABLE: u8 = 10;
/// Scope code of a namespace.
pub const SCOPE_NAMESPACE: u8 = 11;

/// The scope code that a highlight capture name stands for; 0 for a name
/// that is no known scope.
pub open spec fn scope_code(name: Seq<char>) -> u8 {
    if name == "keyword"@ {
        SCOPE_KEYWORD
    } else if name == "string"@ {
        SCOPE_STRING
    } else if name == "number"@ {
        SCOPE_NUMBER
    } else if name == "comment"@ {
        SCOPE_COMMENT
    } else if name == "type"@ {
        SCOPE_TYPE
    } else if name == "function"@ {
        SCOPE_FUNCTION
    } else if name == "operator"@ {
        SCOPE_OPERATOR
    } else if name == "variable"@ {
        SCOPE_VARIABLE
    } else if name == "namespace"@ {
        SCOPE_NAMESPACE
    } else {
        0
    }
}

/// The scope code of a highlight capture name.
pub fn scope_id_for(name: &str) -> (id: u8)
    ensures
        id == scope_code(name@),
{
    if chars_eq(name, "keyword") {
        SCOPE_KEYWORD
    } else if chars_eq(name, "string") {
        SCOPE_STRING
    } else if chars_eq(name, "number") {
        SCOPE_NUMBER
    } else if chars_eq(name, "comment") {
        SCOPE_COMMENT
    } else if chars_eq(name, "type") {
        SCOPE_TYPE
    } else if chars_eq(name, "function") {
        SCOPE_FUNCTION
    } else if chars_eq(name, "operator") {
        SCOPE_OPERATOR
    } else if chars_eq(name, "variable") {
        SCOPE_VARIABLE
    } else if chars_eq(name, "namespace") {
        SCOPE_NAMESPACE
    } else {
        0
    }
}

/// The byte code of a retrieval chunk kind: 1 for a module, 2 for a type,
/// 3 for a function, 0 for anything else.
pub open spec fn kind_code(kind: Seq<char>) -> u8 {
    if kind == "module"@ {
        1
    } else if kind == "type"@ {
        2
    } else if kind == "function"@ {
        3
    } else {
        0
    }
}

/// The byte code of a retrieval chunk kind.
pub fn kind_byte(k: &str) -> (b: u8)
    ensures
        b == kind_code(k@),
{
    if chars_eq(k, "module") {
        1
    } else if chars_eq(k, "type") {
        2
    } else if chars_eq(k, "function") {
        3
    } else {
        0
    }
}

/// Every capture name of a highlight query is a scope with a code in
/// 1..=7 or 10.
pub proof fn lemma_highlight_scopes(kind: QueryKind)
    requires
        kind == QueryKind::Highlight || kind == QueryKind::TsxHighlight,
    ensures
        forall|i: int|
            0 <= i < capture_names_of(kind).len() ==> {
                let c = #[trigger] scope_code(capture_names_of(kind)[i]);
                1 <= c <= 7 || c == 10
            },
{
    reveal_strlit("keyword");
    reveal_strlit("string");
    reveal_strlit("number");
    reveal_strlit("comment");
    reveal_strlit("type");
    reveal_strlit("function");
    reveal_strlit("operator");
    reveal_strlit("variable");
    reveal_strlit("namespace");
    let names = capture_names_of(kind);
    assert("keyword"@.len() == 7);
    assert("string"@.len() == 6);
    assert("number"@.len() == 6);
    assert("comment"@.len() == 7);
    assert("type"@.len() == 4);
    assert("function"@.len() == 8);
    assert("variable"@.len() == 8);
    assert("operator"@.len() == 8);
    assert(scope_code("keyword"@) == 1);
    assert("string"@ != "keyword"@);
    assert(scope_code("string"@) == 2);
    assert("number"@[0] != "string"@[0]);
    assert("number"@ != "keyword"@);
    assert(scope_code("number"@) == 3);
    assert("comment"@[0] != "keyword"@[0]);
    assert(scope_code("comment"@) == 4);
    assert("type"@ != "keyword"@);
    assert("type"@ != "string"@);
    assert("type"@ != "number"@);
    assert("type"@ != "comment"@);
    assert(scope_code("type"@) == 5);
    assert("function"@ != "keyword"@);
    assert("function"@ != "string"@);
    assert("function"@ != "number"@);
    assert("function"@ != "comment"@);
    assert("function"@ != "type"@);
    assert(scope_code("function"@) == 6);
    assert("variable"@[0] != "function"@[0]);
    assert("variable"@ != "keyword"@);
    assert("variable"@ != "string"@);
    assert("variable"@ != "number"@);
    assert("variable"@ != "comment"@);
    assert("variable"@ != "type"@);
    assert("variable"@[0] != "operator"@[0]);
    assert(scope_code("variable"@) == 10);
    assert("operator"@[0] != "function"@[0]);
    assert("operator"@ != "keyword"@);
    assert("operator"@ != "string"@);
    assert("operator"@ != "number"@);
    assert("operator"@ != "comment"@);
    assert("operator"@ != "type"@);
    assert(scope_code("operator"@) == 7);
}

} // verus!
