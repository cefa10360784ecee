use hwtwin::cli::{bar_glyphs, key_le_exec, route, scan_group, schema_type, sort_by_key, Route, ScanGroup};

fn pair(a: &str, b: &str) -> (String, String) {
    (a.to_string(), b.to_string())
}

#[test]
fn scan_group_by_prefix_and_type() {
    assert_eq!(scan_group("TCMb", "flt"), ScanGroup::Temperature);
    assert_eq!(scan_group("PSTR", "flt"), ScanGroup::Power);
    assert_eq!(scan_group("TCMb", "ui8 "), ScanGroup::Other);
    assert_eq!(scan_group("F0Ac", "flt"), ScanGroup::Other);
    assert_eq!(scan_group("", "flt"), ScanGroup::Other);
}

#[test]
fn schema_type_last_entry_counts() {
    let schema = vec![pair("TCMb", "flt"), pair("B0CT", "ui16"), pair("TCMb", "sp78")];
    assert_eq!(schema_type(&schema, &"TCMb".to_string()), Some("sp78".to_string()));
    assert_eq!(schema_type(&schema, &"B0CT".to_string()), Some("ui16".to_string()));
    assert_eq!(schema_type(&schema, &"none".to_string()), None);
}

#[test]
fn key_order_is_string_order() {
    for (a, b) in [("TCMb", "TCMz"), ("Tp01", "Tp1"), ("", "a"), ("ab", "ab"), ("Z", "a"), ("b", "ab")] {
        assert_eq!(key_le_exec(&a.to_string(), &b.to_string()), a <= b, "{a} {b}");
    }
}

#[test]
fn sort_by_key_orders_entries() {
    let entries = vec![("Tp09".to_string(), 0), ("TCMb".to_string(), 1), ("Te04".to_string(), 2), ("TCMa".to_string(), 3)];
    let sorted = sort_by_key(entries);
    let keys: Vec<&str> = sorted.iter().map(|e| e.0.as_str()).collect();
    assert_eq!(keys, vec!["TCMa", "TCMb", "Te04", "Tp09"]);
    assert_eq!(sorted.iter().map(|e| e.1).collect::<Vec<_>>(), vec![3, 1, 2, 0]);
    assert!(sort_by_key(Vec::new()).is_empty());
}

#[test]
fn bar_glyphs_fill_from_left() {
    assert_eq!(bar_glyphs(3, 5), "███░░");
    assert_eq!(bar_glyphs(0, 2), "░░");
    assert_eq!(bar_glyphs(9, 2), "██");
    assert_eq!(bar_glyphs(1, 0), "");
}

#[test]
fn route_by_request_path() {
    assert_eq!(route("GET /stream HTTP/1.1\r\nHost: x\r\n\r\n"), Route::Stream);
    assert_eq!(route("GET / HTTP/1.1\r\n\r\n"), Route::Page);
    assert_eq!(route("GET /streams HTTP/1.1"), Route::Page);
    assert_eq!(route("GET"), Route::Nothing);
    assert_eq!(route(""), Route::Nothing);
    assert_eq!(route("  \t GET\n/stream"), Route::Stream);
}

#[test]
fn sort_by_key_keeps_order_of_equal_keys() {
    let entries = vec![("b".to_string(), 0), ("a".to_string(), 1), ("b".to_string(), 2), ("a".to_string(), 3)];
    let sorted = sort_by_key(entries);
    assert_eq!(sorted, vec![("a".to_string(), 1), ("a".to_string(), 3), ("b".to_string(), 0), ("b".to_string(), 2)]);
}
