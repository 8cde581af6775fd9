use bf_tools::hypothalamus::codegen::{
    is_valid_symbol_name, validate_runtime, FreestandingOptions, Runtime, SymbolError,
};

fn freestanding(entry: &str, putchar: &str, getchar: &str) -> Runtime {
    Runtime::Freestanding(FreestandingOptions {
        entry_symbol: entry.to_owned(),
        putchar_symbol: putchar.to_owned(),
        getchar_symbol: getchar.to_owned(),
    })
}

#[test]
fn accepts_the_symbol_names_linkers_accept() {
    assert!(is_valid_symbol_name("bf_main"));
    assert!(is_valid_symbol_name("_start"));
    assert!(is_valid_symbol_name("kernel.io$write"));
    assert!(!is_valid_symbol_name(""));
    assert!(!is_valid_symbol_name("2fast"));
    assert!(!is_valid_symbol_name("has space"));
}

#[test]
fn symbol_names_may_hold_digits_after_the_first_byte() {
    assert!(is_valid_symbol_name("main2"));
    assert!(!is_valid_symbol_name("naïve"));
    assert!(!is_valid_symbol_name("dash-ed"));
}

#[test]
fn hosted_runtime_needs_no_names() {
    assert_eq!(validate_runtime(&Runtime::Hosted), Ok(()));
    assert_eq!(validate_runtime(&Runtime::Freestanding(FreestandingOptions::default())), Ok(()));
}

#[test]
fn invalid_names_are_reported_in_order() {
    let err = validate_runtime(&freestanding("1st", "bad name", "bf_getchar")).unwrap_err();
    assert_eq!(err, SymbolError::InvalidSymbolName { kind: "entry", name: "1st".to_owned() });
    assert_eq!(err.text(), "invalid entry symbol name `1st`");
    let err = validate_runtime(&freestanding("main", "bad name", "")).unwrap_err();
    assert_eq!(err, SymbolError::InvalidSymbolName { kind: "putchar", name: "bad name".to_owned() });
    let err = validate_runtime(&freestanding("main", "out", "")).unwrap_err();
    assert_eq!(err, SymbolError::InvalidSymbolName { kind: "getchar", name: String::new() });
}

#[test]
fn repeated_names_are_refused() {
    let err = validate_runtime(&freestanding("io", "io", "get")).unwrap_err();
    assert_eq!(err, SymbolError::DuplicateSymbolName("io".to_owned()));
    assert_eq!(err.text(), "runtime symbol name `io` is used more than once");
    let err = validate_runtime(&freestanding("main", "io", "io")).unwrap_err();
    assert_eq!(err, SymbolError::DuplicateSymbolName("io".to_owned()));
}
