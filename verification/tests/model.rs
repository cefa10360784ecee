use hwtwin::model::{add, reading_of, wanted_keys, SnapshotPlan};
use hwtwin::profile::Profile;

fn s(v: &[&str]) -> Vec<String> {
    v.iter().map(|x| x.to_string()).collect()
}

const TEXT: &str = "\
cpu_p_temp: Tp01 Tp02 Tp01
cpu_e_temp: Te04
gpu_temp: Tg0a Tg0b
hotspot: TCMb TCMz
dram_temp: TRD0
dram_power: PMVC
ssd_temp: TH0a
battery_temp: TB0T
fans: F0Ac F1Ac
system_power: PSTR
cpu_clusters: PC0C PC1C
rails: C0x R8b
adapter_voltage: D3V0
adapter_current: D3I0
backlight_power: PDBR
backlight_current: IDBR
ane_temp: Ta00
";

#[test]
fn add_appends_in_order() {
    let mut want = s(&["a"]);
    add(&mut want, &s(&["b", "c"]));
    assert_eq!(want, s(&["a", "b", "c"]));
}

#[test]
fn wanted_keys_batch_order() {
    let p = Profile::parse(TEXT);
    let w = wanted_keys(&p);
    assert_eq!(
        w,
        s(&[
            "Tp01", "Tp02", "Tp01", "Te04", "Tg0a", "Tg0b", "TCMb", "TCMz", "TRD0", "TH0a", "TB0T",
            "F0Ac", "F1Ac", "PC0C", "PC1C", "PMVC", "PSTR", "D3V0", "D3I0", "PDBR", "IDBR",
            "Ta00", "VC0x", "IC0x", "PC0x", "VR8b", "IR8b", "PR8b"
        ])
    );
}

#[test]
fn reading_of_finds_first_match() {
    let present = s(&["a", "b", "a"]);
    assert_eq!(reading_of(&present, &"a".to_string()), Some(0));
    assert_eq!(reading_of(&present, &"b".to_string()), Some(1));
    assert_eq!(reading_of(&present, &"z".to_string()), None);
}

#[test]
fn plan_selects_present_readings() {
    let p = Profile::parse(TEXT);
    let present = s(&["Tp02", "Tp01", "TCMz", "F1Ac", "PC1C", "PC0x", "IC0x", "VR8b", "Ta00", "PSTR"]);
    let plan = SnapshotPlan::build(&p, &present);
    assert_eq!(plan.cpu_p_temp, vec![1, 0, 1]);
    assert_eq!(plan.cpu_power, vec![4]);
    assert!(plan.cpu_e_temp.is_empty());
    assert_eq!(plan.hotspot, vec![2]);
    assert_eq!(plan.fans, vec![None, Some(3)]);
    assert_eq!(plan.total_power, Some(9));
    assert_eq!(plan.cluster0, None);
    assert_eq!(plan.cluster1, Some(4));
    assert_eq!(plan.dram_power, None);
    assert_eq!(plan.grid_p, vec![("Tp01".to_string(), 1), ("Tp02".to_string(), 0), ("Tp01".to_string(), 1)]);
    assert!(plan.grid_e.is_empty());
    assert_eq!(plan.rails.len(), 1);
    assert_eq!(plan.rails[0].key, "C0x");
    assert_eq!(plan.rails[0].p, 5);
    assert_eq!(plan.rails[0].i, Some(6));
    assert_eq!(plan.rails[0].v, None);
    assert_eq!(plan.ane_temp, vec![8]);
    assert_eq!(plan.backlight_w, None);
}

#[test]
fn plan_with_nothing_read_is_empty() {
    let p = Profile::parse(TEXT);
    let plan = SnapshotPlan::build(&p, &Vec::new());
    assert!(plan.cpu_p_temp.is_empty());
    assert!(plan.rails.is_empty());
    assert_eq!(plan.fans, vec![None, None]);
    assert_eq!(plan.total_power, None);
}

#[test]
fn law_plan_reads_only_wanted_example() {
    let p = Profile::parse(TEXT);
    let wanted = wanted_keys(&p);
    let present = s(&["Tp02", "zzzz", "TCMz", "PR8b", "VR8b", "PMVC", "D3V0"]);
    let plan = SnapshotPlan::build(&p, &present);
    let mut used: Vec<usize> = Vec::new();
    used.extend(&plan.cpu_p_temp);
    used.extend(&plan.hotspot);
    used.extend(&plan.adapter_v);
    used.extend(plan.dram_power);
    for r in &plan.rails {
        used.push(r.p);
        used.extend(r.v);
        used.extend(r.i);
    }
    assert!(!used.contains(&1));
    for j in used {
        assert!(wanted.contains(&present[j]));
    }
}

#[test]
fn law_plan_depends_only_on_batch_example() {
    let p = Profile::parse(TEXT);
    let a = s(&["Tp02", "xtra", "PR8b", "TCMz", "PMVC"]);
    let b = s(&["PMVC", "TCMz", "PR8b", "Tp02", "other", "more"]);
    let pa = SnapshotPlan::build(&p, &a);
    let pb = SnapshotPlan::build(&p, &b);
    let keys = |present: &Vec<String>, ix: &Vec<usize>| ix.iter().map(|&i| present[i].clone()).collect::<Vec<_>>();
    assert_eq!(keys(&a, &pa.cpu_p_temp), keys(&b, &pb.cpu_p_temp));
    assert_eq!(keys(&a, &pa.hotspot), keys(&b, &pb.hotspot));
    assert_eq!(pa.dram_power.map(|i| a[i].clone()), pb.dram_power.map(|i| b[i].clone()));
    assert_eq!(a[pa.rails[0].p], b[pb.rails[0].p]);
    assert_eq!(pa.rails.len(), pb.rails.len());
}
