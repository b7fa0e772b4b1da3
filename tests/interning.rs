use simple_symbol::{intern, intern_static, resolve, Interner, Symbol};

#[test]
fn test_same() {
    let mut table = Interner::new();
    let symbol_a = intern(&mut table, "String");
    let symbol_b = intern(&mut table, "String");
    assert!(symbol_a == symbol_b);
}

#[test]
fn test_different() {
    let mut table = Interner::new();
    let symbol_a = intern(&mut table, "StringA");
    let symbol_b = intern(&mut table, "StringB");
    assert!(symbol_a != symbol_b);
}

#[test]
fn test_case() {
    let mut table = Interner::new();
    let symbol_a = intern(&mut table, "String");
    let symbol_b = intern(&mut table, "string");
    assert!(symbol_a != symbol_b);
}

#[test]
fn test_resolve() {
    let mut table = Interner::new();
    let symbol = intern(&mut table, "abcd");
    let string: &'static str = resolve(&table, symbol);
    assert_eq!("abcd", string);
}

#[test]
fn test_debug() {
    let mut table = Interner::new();
    let symbol = intern(&mut table, "Debug");
    assert_eq!(symbol.to_debug_string(&table), format!("{:?}", "Debug".to_string()));
}

#[test]
fn test_display() {
    let mut table = Interner::new();
    let symbol = intern(&mut table, "Display");
    assert_eq!(symbol.to_string(&table), format!("{}", "Display".to_string()));
}

#[test]
fn scenario_a_a_b() {
    let mut table = Interner::new();
    let x = intern(&mut table, "A");
    let x2 = intern(&mut table, "A");
    assert!(x == x2);
    let y = intern(&mut table, "B");
    assert!(x != y);
    assert_eq!(resolve(&table, x), "A");
    assert_eq!(resolve(&table, y), "B");
    assert_eq!(x.to_string(&table), "A");
    assert_eq!(table.len(), 2);
}

#[test]
fn same_symbol_after_other_strings() {
    let mut table = Interner::new();
    let first = intern(&mut table, "keyword");
    for word in ["a", "b", "keyword", "c"] {
        intern(&mut table, word);
    }
    let again = intern(&mut table, "keyword");
    assert!(first == again);
    assert_eq!(table.len(), 4);
}

#[test]
fn slots_are_dense_and_ordered() {
    let mut table = Interner::new();
    let a = intern(&mut table, "zeta");
    let b = intern(&mut table, "alpha");
    let c = intern(&mut table, "mid");
    assert!(a < b && b < c);
    assert_eq!(table.len(), 3);
}

#[test]
fn static_and_copied_paths_agree() {
    let mut table = Interner::new();
    let owned = String::from("shared");
    let a = intern(&mut table, &owned);
    let b = intern_static(&mut table, "shared");
    assert!(a == b);
    let c = intern_static(&mut table, "fresh");
    let d = intern(&mut table, "fresh");
    assert!(c == d);
    assert_eq!(resolve(&table, c), "fresh");
    assert_eq!(table.len(), 2);
}

#[test]
fn method_and_free_function_agree() {
    let mut table = Interner::new();
    let a = table.intern("x");
    let b = intern(&mut table, "x");
    let c = table.intern_static("y");
    assert!(a == b);
    assert_eq!(table.resolve(c), "y");
}

#[test]
fn interned_text_outlives_its_source() {
    let mut table = Interner::new();
    let symbol = {
        let temporary = format!("{}-{}", "built", 7);
        intern(&mut table, &temporary)
    };
    assert_eq!(resolve(&table, symbol), "built-7");
}

#[test]
fn empty_string_is_interned() {
    let mut table = Interner::new();
    let a = intern(&mut table, "");
    let b = intern(&mut table, "");
    assert!(a == b);
    assert_eq!(resolve(&table, a), "");
    assert_eq!(table.len(), 1);
}

#[test]
fn non_ascii_strings_compare_exactly() {
    let mut table = Interner::new();
    let a = intern(&mut table, "héllo");
    let b = intern(&mut table, "hèllo");
    let c = intern(&mut table, "héllo");
    assert!(a != b);
    assert!(a == c);
    assert_eq!(resolve(&table, b), "hèllo");
}

#[test]
fn prefix_is_a_different_string() {
    let mut table = Interner::new();
    let a = intern(&mut table, "ab");
    let b = intern(&mut table, "abc");
    assert!(a != b);
}

#[test]
fn debug_rendering_escapes_like_str() {
    let mut table = Interner::new();
    let text = "say \"hi\"\n\ttab";
    let symbol = intern(&mut table, text);
    assert_eq!(symbol.to_debug_string(&table), format!("{:?}", text));
    assert_eq!(symbol.to_debug_string(&table), "\"say \\\"hi\\\"\\n\\ttab\"");
}

#[test]
fn parse_equals_intern() {
    let mut table = Interner::new();
    let parsed = Symbol::from_str(&mut table, "parsed");
    let interned = intern(&mut table, "parsed");
    assert!(parsed == Ok(interned));
    assert_eq!(table.len(), 1);
}

#[test]
fn growth_counts_distinct_strings() {
    let mut table = Interner::new();
    let mut previous = table.len();
    for word in ["a", "b", "a", "c", "b", "a"] {
        intern(&mut table, word);
        assert!(table.len() >= previous);
        previous = table.len();
    }
    assert_eq!(table.len(), 3);
}

#[test]
fn checked_resolve_rejects_unknown_slots() {
    let mut big = Interner::new();
    intern(&mut big, "one");
    let second = intern(&mut big, "two");
    let mut small = Interner::new();
    let only = intern(&mut small, "solo");
    assert_eq!(small.try_resolve(second), None);
    assert_eq!(small.try_resolve(only), Some("solo"));
    assert_eq!(Interner::default().len(), 0);
}
