use basalt_plugin_parser_typescript::scope::{kind_byte, scope_id_for};

#[test]
fn scope_ids_of_known_names() {
    assert_eq!(scope_id_for("keyword"), 1);
    assert_eq!(scope_id_for("string"), 2);
    assert_eq!(scope_id_for("number"), 3);
    assert_eq!(scope_id_for("comment"), 4);
    assert_eq!(scope_id_for("type"), 5);
    assert_eq!(scope_id_for("function"), 6);
    assert_eq!(scope_id_for("operator"), 7);
    assert_eq!(scope_id_for("variable"), 10);
    assert_eq!(scope_id_for("namespace"), 11);
}

#[test]
fn scope_id_of_unknown_names_is_zero() {
    assert_eq!(scope_id_for(""), 0);
    assert_eq!(scope_id_for("Keyword"), 0);
    assert_eq!(scope_id_for("keywords"), 0);
    assert_eq!(scope_id_for("key"), 0);
    assert_eq!(scope_id_for("punctuation"), 0);
}

#[test]
fn kind_bytes() {
    assert_eq!(kind_byte("module"), 1);
    assert_eq!(kind_byte("type"), 2);
    assert_eq!(kind_byte("function"), 3);
    assert_eq!(kind_byte("class"), 0);
    assert_eq!(kind_byte(""), 0);
    assert_eq!(kind_byte("functions"), 0);
}
