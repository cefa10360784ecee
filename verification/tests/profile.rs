use hwtwin::profile::{Profile, MAC15_11_PROFILE};

fn s(v: &[&str]) -> Vec<String> {
    v.iter().map(|x| x.to_string()).collect()
}

#[test]
fn parse_reads_fields_and_keys() {
    let p = Profile::parse("model: Mac15,11\ncpu_p_temp: Tp01 Tp05  Tp09\nrails: C0x R8b\n");
    assert_eq!(p.model, "Mac15,11");
    assert_eq!(p.cpu_p_temp, s(&["Tp01", "Tp05", "Tp09"]));
    assert_eq!(p.rails, s(&["C0x", "R8b"]));
    assert!(p.gpu_temp.is_empty());
    assert_eq!(p.dram_power, "");
}

#[test]
fn parse_skips_comments_blank_lines_and_lines_without_colon() {
    let p = Profile::parse("# header: not a field\n\n   \nfans F0Ac F1Ac\nfans: F0Ac F1Ac\n  # hotspot: X\n");
    assert_eq!(p.fans, s(&["F0Ac", "F1Ac"]));
    assert!(p.hotspot.is_empty());
}

#[test]
fn parse_trims_keys_and_handles_crlf() {
    let p = Profile::parse("  system_power :  PSTR \r\n\tdram_power:PMVC\r\n");
    assert_eq!(p.system_power, "PSTR");
    assert_eq!(p.dram_power, "PMVC");
}

#[test]
fn parse_later_line_wins() {
    let p = Profile::parse("ssd_temp: TH0a\nssd_temp: TH0b TH0x\n");
    assert_eq!(p.ssd_temp, s(&["TH0b", "TH0x"]));
}

#[test]
fn parse_single_value_field_takes_first_key() {
    let p = Profile::parse("backlight_power: PDBR IDBR\nbacklight_current:\n");
    assert_eq!(p.backlight_power, "PDBR");
    assert_eq!(p.backlight_current, "");
}

#[test]
fn parse_splits_only_at_first_colon() {
    let p = Profile::parse("model: a:b c\n");
    assert_eq!(p.model, "a:b");
}

#[test]
fn parse_empty_text_gives_empty_profile() {
    let p = Profile::parse("");
    assert_eq!(p.model, "");
    assert!(p.cpu_p_temp.is_empty());
    assert!(p.rails.is_empty());
    assert!(p.ane_temp.is_empty());
}

#[test]
fn parse_unknown_fields_are_ignored() {
    let p = Profile::parse("colour: blue\nane_temp: Ta00 Ta01\n");
    assert_eq!(p.ane_temp, s(&["Ta00", "Ta01"]));
}

#[test]
fn parse_unicode_whitespace_separates_keys() {
    let p = Profile::parse("hotspot:\u{a0}TCMb\u{3000}TCMz\n");
    assert_eq!(p.hotspot, s(&["TCMb", "TCMz"]));
}

#[test]
fn law_ignored_line_example() {
    let base = "gpu_temp: Tg0a Tg0b\nmodel: X";
    let a = Profile::parse(base);
    let b = Profile::parse(&format!("{base}\n# gpu_temp: none"));
    let c = Profile::parse(&format!("no colon here\n{base}"));
    assert_eq!(a.gpu_temp, b.gpu_temp);
    assert_eq!(a.gpu_temp, c.gpu_temp);
    assert_eq!(a.model, b.model);
}

#[test]
fn law_later_line_wins_example() {
    let base = "gpu_temp: Tg0a Tg0b\nmodel: X";
    let p = Profile::parse(&format!("{base}\ngpu_temp: Tg1a"));
    assert_eq!(p.gpu_temp, s(&["Tg1a"]));
    assert_eq!(p.model, "X");
}

#[test]
fn for_model_prefers_file_on_disk() {
    let p = Profile::for_model("Mac15,11", Some("model: Custom\n")).unwrap();
    assert_eq!(p.model, "Custom");
}

#[test]
fn for_model_falls_back_to_bundled() {
    let p = Profile::for_model("Mac15,11", None).unwrap();
    assert_eq!(p.model, "Mac15,11");
    assert_eq!(p.hotspot, s(&["TCMb", "TCMz"]));
    assert_eq!(p.dram_power, "PMVC");
    assert_eq!(p.cpu_e_temp.len(), 10);
}

#[test]
fn for_model_unmapped_is_none() {
    assert!(Profile::for_model("Mac14,2", None).is_none());
    assert!(Profile::for_model("", None).is_none());
}

#[test]
fn bundled_models_lists_shipped_profiles() {
    assert_eq!(Profile::bundled_models(), vec!["Mac15,11"]);
}

#[test]
fn law_bundled_models_load_example() {
    for m in Profile::bundled_models() {
        assert!(Profile::for_model(m, None).is_some());
    }
}

#[test]
fn bundled_text_parses_to_its_model() {
    assert_eq!(Profile::parse(MAC15_11_PROFILE).model, "Mac15,11");
}

#[test]
fn profile_file_path() {
    assert_eq!(hwtwin::profile::profile_file("Mac15,11"), "profiles/Mac15,11.profile");
}

#[test]
fn law_ignored_line_anywhere_example() {
    let a = "model: X\ngpu_temp: Tg0a";
    let b = "hotspot: TCMb\nfans: F0Ac";
    let base = Profile::parse(&format!("{a}\n{b}"));
    for line in ["", "# fans: none", "no colon", "colour: blue"] {
        let p = Profile::parse(&format!("{a}\n{line}\n{b}"));
        assert_eq!(p.model, base.model);
        assert_eq!(p.gpu_temp, base.gpu_temp);
        assert_eq!(p.hotspot, base.hotspot);
        assert_eq!(p.fans, base.fans);
    }
}

#[test]
fn law_lines_commute_example() {
    let p1 = Profile::parse("model: X\ngpu_temp: Tg0a\nfans: F0Ac\nfans: F1Ac");
    let p2 = Profile::parse("model: X\nfans: F0Ac\ngpu_temp: Tg0a\nfans: F1Ac");
    assert_eq!(p1.gpu_temp, p2.gpu_temp);
    assert_eq!(p1.fans, p2.fans);
    assert_eq!(p1.fans, vec!["F1Ac".to_string()]);
}

#[test]
fn law_parse_depends_on_field_lines_example() {
    let t1 = "model: X\nfans: F0Ac\n# note\ngpu_temp: Tg0a\nfans: F1Ac F2Ac\nhotspot: TCMb";
    let t2 = "hotspot: TCMb\nfans: F0Ac\ngpu_temp: Tg0a\nunknown: z\nfans: F1Ac F2Ac\nmodel: X";
    let p1 = Profile::parse(t1);
    let p2 = Profile::parse(t2);
    assert_eq!(p1.model, p2.model);
    assert_eq!(p1.fans, p2.fans);
    assert_eq!(p1.fans, vec!["F1Ac".to_string(), "F2Ac".to_string()]);
    assert_eq!(p1.gpu_temp, p2.gpu_temp);
    assert_eq!(p1.hotspot, p2.hotspot);
}
