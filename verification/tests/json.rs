use hwtwin::json::{grid_json, join_with_commas, rails_json, schema_json, snapshot_json, values_json, RailText, SnapshotText};

fn pair(a: &str, b: &str) -> (String, String) {
    (a.to_string(), b.to_string())
}

#[test]
fn join_with_commas_separates() {
    assert_eq!(join_with_commas(&vec!["a".to_string(), "b".to_string(), "c".to_string()]), "a,b,c");
    assert_eq!(join_with_commas(&vec!["a".to_string()]), "a");
    assert_eq!(join_with_commas(&Vec::new()), "");
}

#[test]
fn schema_json_object() {
    let schema = vec![pair("TCMb", "flt"), pair("B0CT", "ui16")];
    assert_eq!(schema_json(&schema), "{\"TCMb\":\"flt\",\"B0CT\":\"ui16\"}");
    assert_eq!(schema_json(&vec![pair("A", "ui8")]), "{\"A\":\"ui8\"}");
    assert_eq!(schema_json(&Vec::new()), "{}");
}

#[test]
fn values_json_object() {
    let values = vec![pair("TCMb", "45.2500"), pair("PSTR", "12.0000")];
    assert_eq!(values_json(&values), "{\"TCMb\":45.2500,\"PSTR\":12.0000}");
    assert_eq!(values_json(&Vec::new()), "{}");
}

#[test]
fn grid_json_cells() {
    let cells = vec![pair("Tp01", "51.25"), pair("Tp05", "49.00")];
    assert_eq!(grid_json(&cells), "[{\"k\":\"Tp01\",\"v\":51.25},{\"k\":\"Tp05\",\"v\":49.00}]");
    assert_eq!(grid_json(&Vec::new()), "[]");
}

#[test]
fn rails_json_elements() {
    let rails = vec![
        RailText { key: "C0x".to_string(), v: Some("0.80".to_string()), i: None, p: "3.250".to_string() },
        RailText { key: "R8b".to_string(), v: None, i: Some("1.50".to_string()), p: "0.500".to_string() },
    ];
    assert_eq!(
        rails_json(&rails),
        "[{\"k\":\"C0x\",\"v\":0.80,\"i\":null,\"p\":3.250},{\"k\":\"R8b\",\"v\":null,\"i\":1.50,\"p\":0.500}]"
    );
}

#[test]
fn snapshot_json_shape() {
    let some = |s: &str| Some(s.to_string());
    let t = SnapshotText {
        cpu_p_temp: some("61.50"),
        cpu_p_power: some("20.00"),
        cpu_e_temp: None,
        hotspot: some("70.00"),
        gpu_temp: some("40.00"),
        dram_temp: None,
        dram_power: some("1.20"),
        ssd_temp: some("35.00"),
        battery_temp: None,
        fan0: some("1200.00"),
        fan1: None,
        total_power: some("30.00"),
        cluster0: some("10.00"),
        cluster1: some("10.00"),
        adapter_v: some("20.00"),
        adapter_i: some("3.00"),
        charger_present: true,
        backlight_w: None,
        ane_temp: some("33.00"),
        grid_p: "[]".to_string(),
        grid_e: "[]".to_string(),
        grid_g: "[{\"k\":\"Tg0a\",\"v\":40.00}]".to_string(),
        rails: "[]".to_string(),
    };
    let expected = [
        r#"{"cpu_p":{"temp":61.50,"power":20.00},"cpu_e":{"temp":null},"#,
        r#""hotspot":70.00,"gpu":{"temp":40.00},"dram":{"temp":null,"power":1.20},"#,
        r#""ssd":{"temp":35.00},"battery":{"temp":null},"#,
        r#""fans":[{"rpm":1200.00},{"rpm":null}],"#,
        r#""power":{"total":30.00,"cluster0":10.00,"cluster1":10.00},"#,
        r#""adapter":{"v":20.00,"i":3.00,"present":true},"backlight":{"power":null},"#,
        r#""ane":{"temp":33.00},"#,
        r#""grid_p":[],"grid_e":[],"grid_g":[{"k":"Tg0a","v":40.00}],"rails":[]}"#,
    ]
    .join("");
    assert_eq!(snapshot_json(&t), expected);
}
