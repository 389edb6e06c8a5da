use kg::code_symbols::{
    language_for_extension, normalize_symbol_kind, normalize_symbol_name, symbols_from_captures,
    ScannedSymbol, SymbolLanguage,
};

#[test]
fn symbol_kinds_are_normalized() {
    assert_eq!(normalize_symbol_kind("function"), Some("fn"));
    assert_eq!(normalize_symbol_kind("method.static"), Some("method"));
    assert_eq!(normalize_symbol_kind("module"), Some("mod"));
    assert_eq!(normalize_symbol_kind("type_alias"), Some("type"));
    assert_eq!(normalize_symbol_kind("variable"), Some("var"));
    assert_eq!(normalize_symbol_kind("macro"), Some("macro"));
    assert_eq!(normalize_symbol_kind("call"), None);
}

#[test]
fn symbol_names_are_cleaned() {
    assert_eq!(normalize_symbol_name("  pub fn hello() { "), Some("hello".to_owned()));
    assert_eq!(normalize_symbol_name("class Greeter:"), Some("Greeter".to_owned()));
    assert_eq!(normalize_symbol_name("$scope_1;"), Some("$scope_1".to_owned()));
    assert_eq!(normalize_symbol_name("żółw"), Some("żółw".to_owned()));
    assert_eq!(normalize_symbol_name(" ();"), None);
    assert_eq!(normalize_symbol_name("--"), None);
}

#[test]
fn languages_follow_extensions() {
    assert_eq!(language_for_extension("RS"), Some(SymbolLanguage::Rust));
    assert_eq!(language_for_extension("mjs"), Some(SymbolLanguage::JavaScript));
    assert_eq!(language_for_extension("hpp"), Some(SymbolLanguage::Cpp));
    assert_eq!(language_for_extension("md"), None);
}

#[test]
fn captures_become_distinct_symbols() {
    let caps: Vec<(String, String)> = vec![
        ("definition.class".to_owned(), "Greeter".to_owned()),
        ("name".to_owned(), "ignored".to_owned()),
        ("definition.method".to_owned(), "hello".to_owned()),
        ("definition.class".to_owned(), "Greeter".to_owned()),
        ("definition.call".to_owned(), "x".to_owned()),
        ("definition.function".to_owned(), "()".to_owned()),
    ];
    let symbols = symbols_from_captures(&caps);
    assert_eq!(
        symbols,
        vec![
            ScannedSymbol { kind: "class".to_owned(), name: "Greeter".to_owned() },
            ScannedSymbol { kind: "method".to_owned(), name: "hello".to_owned() },
        ]
    );
}
