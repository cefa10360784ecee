//! The portable, hardware-independent reduction of sensor readings.
//!
//! Building a snapshot has three steps: the keys a profile references are
//! gathered into one batch ([`wanted_keys`]), a sensor source reads the batch,
//! and the readings are reduced into logical subsystems. This module holds the
//! first step and the decisions of the third: for every field of the snapshot,
//! which readings it draws from and how (averaged, summed, the largest, copied
//! one-to-one). A reading is named by its index in the list of keys that the
//! source returned a value for; the arithmetic on the values is the caller's.
use vstd::prelude::*;

use crate::profile::{Profile, ProfileView};

verus! {

/// The three keys of a power rail: its voltage, current and power.
pub open spec fn rail_keys(rails: Seq<Seq<char>>) -> Seq<Seq<char>>
    decreases rails.len(),
{
    if rails.len() == 0 {
        seq![]
    } else {
        let s = rails.last();
        rail_keys(rails.drop_last()) + seq!["V"@ + s, "I"@ + s, "P"@ + s]
    }
}

/// Every key a profile references, in the order the batch reads them.
pub open spec fn wanted(p: ProfileView) -> Seq<Seq<char>> {
    p.cpu_p_temp + p.cpu_e_temp + p.gpu_temp + p.hotspot + p.dram_temp + p.ssd_temp
        + p.battery_temp + p.fans + p.cpu_clusters + seq![p.dram_power, p.system_power]
        + p.adapter_voltage + p.adapter_current + seq![p.backlight_power, p.backlight_current]
        + p.ane_temp + rail_keys(p.rails)
}

/// Appends `keys` to `want`.
pub fn add(want: &mut Vec<String>, keys: &[String])
    ensures
        final(want).deep_view() == old(want).deep_view() + keys.deep_view(),
{
    let ghost start = want.deep_view();
    let mut i: usize = 0;
    while i < keys.len()
        invariant
            i <= keys@.len(),
            want@.len() == start.len() + i,
            want.deep_view() == start + keys.deep_view().take(i as int),
        decreases keys@.len() - i,
    {
        let k = keys[i].clone();
        let ghost before = want@;
        let ghost before_dv = want.deep_view();
        want.push(k);
        proof {
            assert forall|j: int| 0 <= j < want@.len() implies want.deep_view()[j] == (start
                + keys.deep_view().take(i + 1))[j] by {
                if j < want@.len() - 1 {
                    assert(want@[j] == before[j]);
                    assert(before_dv[j] == before[j]@);
                }
            }
            assert(want.deep_view() =~= start + keys.deep_view().take(i + 1));
        }
        i = i + 1;
    }
    assert(keys.deep_view().take(i as int) =~= keys.deep_view());
}

/// Appends one key to `want`.
fn add_one(want: &mut Vec<String>, key: &String)
    ensures
        final(want).deep_view() == old(want).deep_view().push(key@),
{
    let ghost before = want@;
    let ghost before_dv = want.deep_view();
    want.push(key.clone());
    proof {
        assert forall|j: int| 0 <= j < want@.len() implies want.deep_view()[j]
            == before_dv.push(key@)[j] by {
            if j < want@.len() - 1 {
                assert(want@[j] == before[j]);
            }
        }
        assert(want.deep_view() =~= before_dv.push(key@));
    }
}

/// `prefix` followed by `s`.
fn prefixed(prefix: &str, s: &String) -> (r: String)
    ensures
        r@ == prefix@ + s@,
{
    let mut r = String::from_str(prefix);
    r.append(s.as_str());
    r
}

/// Every key the profile references, gathered so that one read of the
/// sensor source covers the whole snapshot.
pub fn wanted_keys(p: &Profile) -> (r: Vec<String>)
    ensures
        r.deep_view() == wanted(p@),
{
    let mut want: Vec<String> = Vec::new();
    assert(want.deep_view() =~= Seq::<Seq<char>>::empty());
    self::add(&mut want, p.cpu_p_temp.as_slice());
    self::add(&mut want, p.cpu_e_temp.as_slice());
    self::add(&mut want, p.gpu_temp.as_slice());
    self::add(&mut want, p.hotspot.as_slice());
    self::add(&mut want, p.dram_temp.as_slice());
    self::add(&mut want, p.ssd_temp.as_slice());
    self::add(&mut want, p.battery_temp.as_slice());
    self::add(&mut want, p.fans.as_slice());
    self::add(&mut want, p.cpu_clusters.as_slice());
    add_one(&mut want, &p.dram_power);
    add_one(&mut want, &p.system_power);
    self::add(&mut want, p.adapter_voltage.as_slice());
    self::add(&mut want, p.adapter_current.as_slice());
    add_one(&mut want, &p.backlight_power);
    add_one(&mut want, &p.backlight_current);
    self::add(&mut want, p.ane_temp.as_slice());
    let ghost head = want.deep_view();
    let ghost rails = p.rails.deep_view();
    let mut i: usize = 0;
    assert(rails.take(0) =~= seq![]);
    assert(head + rail_keys(rails.take(0)) =~= head);
    while i < p.rails.len()
        invariant
            rails == p.rails.deep_view(),
            i <= rails.len(),
            want.deep_view() == head + rail_keys(rails.take(i as int)),
        decreases rails.len() - i,
    {
        let s = &p.rails[i];
        assert(rails[i as int] == s@);
        let v = prefixed("V", s);
        add_one(&mut want, &v);
        let c = prefixed("I", s);
        add_one(&mut want, &c);
        let w = prefixed("P", s);
        add_one(&mut want, &w);
        proof {
            assert(rails.take(i + 1).drop_last() =~= rails.take(i as int));
            assert(rails.take(i + 1).last() == s@);
            assert(want.deep_view() =~= head + rail_keys(rails.take(i + 1)));
        }
        i = i + 1;
    }
    assert(rails.take(i as int) =~= rails);
    assert(want.deep_view() =~= wanted(p@));
    want
}

/// The index of the first reading whose key is `k`, if the source returned one.
pub open spec fn find_key(present: Seq<Seq<char>>, k: Seq<char>) -> Option<usize>
    decreases present.len(),
{
    if present.len() == 0 {
        None
    } else {
        match find_key(present.drop_last(), k) {
            Some(i) => Some(i),
            None => if present.last() == k {
                Some((present.len() - 1) as usize)
            } else {
                None
            },
        }
    }
}

/// The readings of `keys` that the source returned, in the order of `keys`.
pub open spec fn readings_of(present: Seq<Seq<char>>, keys: Seq<Seq<char>>) -> Seq<usize>
    decreases keys.len(),
{
    if keys.len() == 0 {
        seq![]
    } else {
        let rest = readings_of(present, keys.drop_last());
        match find_key(present, keys.last()) {
            Some(i) => rest.push(i),
            None => rest,
        }
    }
}

/// The keys of `keys` that have a reading, each with its reading, in order.
pub open spec fn grid_of(present: Seq<Seq<char>>, keys: Seq<Seq<char>>) -> Seq<(Seq<char>, usize)>
    decreases keys.len(),
{
    if keys.len() == 0 {
        seq![]
    } else {
        let rest = grid_of(present, keys.drop_last());
        match find_key(present, keys.last()) {
            Some(i) => rest.push((keys.last(), i)),
            None => rest,
        }
    }
}

/// A power rail as the reduction sees it: its name and the readings of its
/// voltage, current and power.
pub struct RailPlanView {
    pub key: Seq<char>,
    pub v: Option<usize>,
    pub i: Option<usize>,
    pub p: usize,
}

/// The rails that have a power reading, in the order of `rails`.
pub open spec fn rails_of(present: Seq<Seq<char>>, rails: Seq<Seq<char>>) -> Seq<RailPlanView>
    decreases rails.len(),
{
    if rails.len() == 0 {
        seq![]
    } else {
        let rest = rails_of(present, rails.drop_last());
        let s = rails.last();
        match find_key(present, "P"@ + s) {
            Some(p) => rest.push(
                RailPlanView {
                    key: s,
                    v: find_key(present, "V"@ + s),
                    i: find_key(present, "I"@ + s),
                    p,
                },
            ),
            None => rest,
        }
    }
}

/// The reading of the first of `keys`, if there is a first and it was read.
pub open spec fn first_reading(present: Seq<Seq<char>>, keys: Seq<Seq<char>>, n: int) -> Option<usize> {
    if n < keys.len() {
        find_key(present, keys[n])
    } else {
        None
    }
}

/// Which readings each field of a snapshot draws from.
pub struct SnapshotPlanView {
    pub cpu_p_temp: Seq<usize>,
    pub cpu_power: Seq<usize>,
    pub cpu_e_temp: Seq<usize>,
    pub gpu_temp: Seq<usize>,
    pub dram_temp: Seq<usize>,
    pub dram_power: Option<usize>,
    pub ssd_temp: Seq<usize>,
    pub battery_temp: Seq<usize>,
    pub hotspot: Seq<usize>,
    pub fans: Seq<Option<usize>>,
    pub total_power: Option<usize>,
    pub cluster0: Option<usize>,
    pub cluster1: Option<usize>,
    pub grid_p: Seq<(Seq<char>, usize)>,
    pub grid_e: Seq<(Seq<char>, usize)>,
    pub grid_g: Seq<(Seq<char>, usize)>,
    pub rails: Seq<RailPlanView>,
    pub adapter_v: Seq<usize>,
    pub adapter_i: Seq<usize>,
    pub backlight_w: Option<usize>,
    pub ane_temp: Seq<usize>,
}

/// How a profile reduces the readings whose keys are `present`.
pub open spec fn plan_of(p: ProfileView, present: Seq<Seq<char>>) -> SnapshotPlanView {
    SnapshotPlanView {
        cpu_p_temp: readings_of(present, p.cpu_p_temp),
        cpu_power: readings_of(present, p.cpu_clusters),
        cpu_e_temp: readings_of(present, p.cpu_e_temp),
        gpu_temp: readings_of(present, p.gpu_temp),
        dram_temp: readings_of(present, p.dram_temp),
        dram_power: find_key(present, p.dram_power),
        ssd_temp: readings_of(present, p.ssd_temp),
        battery_temp: readings_of(present, p.battery_temp),
        hotspot: readings_of(present, p.hotspot),
        fans: Seq::new(p.fans.len(), |i: int| find_key(present, p.fans[i])),
        total_power: find_key(present, p.system_power),
        cluster0: first_reading(present, p.cpu_clusters, 0),
        cluster1: first_reading(present, p.cpu_clusters, 1),
        grid_p: grid_of(present, p.cpu_p_temp),
        grid_e: grid_of(present, p.cpu_e_temp),
        grid_g: grid_of(present, p.gpu_temp),
        rails: rails_of(present, p.rails),
        adapter_v: readings_of(present, p.adapter_voltage),
        adapter_i: readings_of(present, p.adapter_current),
        backlight_w: find_key(present, p.backlight_power),
        ane_temp: readings_of(present, p.ane_temp),
    }
}

/// One power rail: its name and the readings of its voltage, current and power.
pub struct RailPlan {
    pub key: String,
    pub v: Option<usize>,
    pub i: Option<usize>,
    pub p: usize,
}

impl View for RailPlan {
    type V = RailPlanView;

    open spec fn view(&self) -> RailPlanView {
        RailPlanView { key: self.key@, v: self.v, i: self.i, p: self.p }
    }
}

/// Which readings each field of a snapshot draws from, by index into the
/// keys that were read. The caller combines the values: a temperature is the
/// mean of its readings, `cpu_power` their sum, `hotspot` the largest.
pub struct SnapshotPlan {
    pub cpu_p_temp: Vec<usize>,
    pub cpu_power: Vec<usize>,
    pub cpu_e_temp: Vec<usize>,
    pub gpu_temp: Vec<usize>,
    pub dram_temp: Vec<usize>,
    pub dram_power: Option<usize>,
    pub ssd_temp: Vec<usize>,
    pub battery_temp: Vec<usize>,
    pub hotspot: Vec<usize>,
    pub fans: Vec<Option<usize>>,
    pub total_power: Option<usize>,
    pub cluster0: Option<usize>,
    pub cluster1: Option<usize>,
    pub grid_p: Vec<(String, usize)>,
    pub grid_e: Vec<(String, usize)>,
    pub grid_g: Vec<(String, usize)>,
    pub rails: Vec<RailPlan>,
    pub adapter_v: Vec<usize>,
    pub adapter_i: Vec<usize>,
    pub backlight_w: Option<usize>,
    pub ane_temp: Vec<usize>,
}

impl View for SnapshotPlan {
    type V = SnapshotPlanView;

    open spec fn view(&self) -> SnapshotPlanView {
        SnapshotPlanView {
            cpu_p_temp: self.cpu_p_temp@,
            cpu_power: self.cpu_power@,
            cpu_e_temp: self.cpu_e_temp@,
            gpu_temp: self.gpu_temp@,
            dram_temp: self.dram_temp@,
            dram_power: self.dram_power,
            ssd_temp: self.ssd_temp@,
            battery_temp: self.battery_temp@,
            hotspot: self.hotspot@,
            fans: self.fans@,
            total_power: self.total_power,
            cluster0: self.cluster0,
            cluster1: self.cluster1,
            grid_p: self.grid_p.deep_view(),
            grid_e: self.grid_e.deep_view(),
            grid_g: self.grid_g.deep_view(),
            rails: self.rails@.map_values(|r: RailPlan| r@),
            adapter_v: self.adapter_v@,
            adapter_i: self.adapter_i@,
            backlight_w: self.backlight_w,
            ane_temp: self.ane_temp@,
        }
    }
}

/// Proves that a prefix's first match is the whole sequence's first match.
proof fn lemma_find_key_prefix(present: Seq<Seq<char>>, k: Seq<char>, n: int)
    requires
        0 <= n <= present.len(),
        find_key(present.take(n), k) is Some,
    ensures
        find_key(present, k) == find_key(present.take(n), k),
    decreases present.len() - n,
{
    if n < present.len() {
        assert(present.take(n + 1).drop_last() =~= present.take(n));
        lemma_find_key_prefix(present, k, n + 1);
    } else {
        assert(present.take(n) =~= present);
    }
}

/// The reading whose key is `k`, if the source returned one.
pub fn reading_of(present: &Vec<String>, k: &String) -> (r: Option<usize>)
    ensures
        r == find_key(present.deep_view(), k@),
{
    let ghost ks = present.deep_view();
    let mut i: usize = 0;
    assert(ks.take(0) =~= seq![]);
    while i < present.len()
        invariant
            ks == present.deep_view(),
            i <= ks.len(),
            find_key(ks.take(i as int), k@) is None,
        decreases ks.len() - i,
    {
        assert(ks.take(i + 1).drop_last() =~= ks.take(i as int));
        assert(ks.take(i + 1).last() == present@[i as int]@);
        if present[i] == *k {
            proof {
                lemma_find_key_prefix(ks, k@, i + 1);
            }
            return Some(i);
        }
        i = i + 1;
    }
    assert(ks.take(i as int) =~= ks);
    None
}

/// The readings of `keys` that the source returned, in the order of `keys`.
pub fn readings(present: &Vec<String>, keys: &Vec<String>) -> (r: Vec<usize>)
    ensures
        r@ == readings_of(present.deep_view(), keys.deep_view()),
{
    let ghost ks = keys.deep_view();
    let mut r: Vec<usize> = Vec::new();
    let mut i: usize = 0;
    assert(ks.take(0) =~= seq![]);
    while i < keys.len()
        invariant
            ks == keys.deep_view(),
            i <= ks.len(),
            r@ == readings_of(present.deep_view(), ks.take(i as int)),
        decreases ks.len() - i,
    {
        assert(ks.take(i + 1).drop_last() =~= ks.take(i as int));
        assert(ks.take(i + 1).last() == keys@[i as int]@);
        match reading_of(present, &keys[i]) {
            Some(j) => r.push(j),
            None => {},
        }
        i = i + 1;
    }
    assert(ks.take(i as int) =~= ks);
    r
}

/// The keys of `keys` that have a reading, each with its reading, in order.
pub fn grid(present: &Vec<String>, keys: &Vec<String>) -> (r: Vec<(String, usize)>)
    ensures
        r.deep_view() == grid_of(present.deep_view(), keys.deep_view()),
{
    let ghost ks = keys.deep_view();
    let mut r: Vec<(String, usize)> = Vec::new();
    let mut i: usize = 0;
    assert(ks.take(0) =~= seq![]);
    while i < keys.len()
        invariant
            ks == keys.deep_view(),
            i <= ks.len(),
            r@.len() == grid_of(present.deep_view(), ks.take(i as int)).len(),
            r.deep_view() == grid_of(present.deep_view(), ks.take(i as int)),
        decreases ks.len() - i,
    {
        assert(ks.take(i + 1).drop_last() =~= ks.take(i as int));
        assert(ks.take(i + 1).last() == keys@[i as int]@);
        match reading_of(present, &keys[i]) {
            Some(j) => {
                let ghost before = r@;
                let ghost before_dv = r.deep_view();
                let cell = (keys[i].clone(), j);
                r.push(cell);
                proof {
                    assert forall|t: int| 0 <= t < r@.len() implies r.deep_view()[t]
                        == before_dv.push((keys@[i as int]@, j))[t] by {
                        if t < r@.len() - 1 {
                            assert(r@[t] == before[t]);
                        }
                    }
                    assert(r.deep_view() =~= before_dv.push((keys@[i as int]@, j)));
                }
            },
            None => {},
        }
        i = i + 1;
    }
    assert(ks.take(i as int) =~= ks);
    r
}

/// The rails of `rails` that have a power reading, in order.
pub fn rail_plans(present: &Vec<String>, rails: &Vec<String>) -> (r: Vec<RailPlan>)
    ensures
        r@.map_values(|x: RailPlan| x@) == rails_of(present.deep_view(), rails.deep_view()),
{
    let ghost ks = rails.deep_view();
    let mut r: Vec<RailPlan> = Vec::new();
    let mut i: usize = 0;
    assert(ks.take(0) =~= seq![]);
    assert(r@.map_values(|x: RailPlan| x@) =~= seq![]);
    while i < rails.len()
        invariant
            ks == rails.deep_view(),
            i <= ks.len(),
            r@.map_values(|x: RailPlan| x@) == rails_of(present.deep_view(), ks.take(i as int)),
        decreases ks.len() - i,
    {
        assert(ks.take(i + 1).drop_last() =~= ks.take(i as int));
        assert(ks.take(i + 1).last() == rails@[i as int]@);
        let s = &rails[i];
        let pk = prefixed("P", s);
        match reading_of(present, &pk) {
            Some(p) => {
                let vk = prefixed("V", s);
                let ik = prefixed("I", s);
                let v = reading_of(present, &vk);
                let c = reading_of(present, &ik);
                let ghost before = r@;
                r.push(RailPlan { key: s.clone(), v, i: c, p });
                assert(r@.map_values(|x: RailPlan| x@) =~= before.map_values(|x: RailPlan| x@).push(
                    r@.last()@,
                ));
            },
            None => {},
        }
        i = i + 1;
    }
    assert(ks.take(i as int) =~= ks);
    r
}

/// The reading of `keys[n]`, if `keys` has such an entry and it was read.
fn nth_reading(present: &Vec<String>, keys: &Vec<String>, n: usize) -> (r: Option<usize>)
    ensures
        r == first_reading(present.deep_view(), keys.deep_view(), n as int),
{
    if n < keys.len() {
        reading_of(present, &keys[n])
    } else {
        None
    }
}

/// The reading of each key of `keys`, if the source returned one.
fn each_reading(present: &Vec<String>, keys: &Vec<String>) -> (r: Vec<Option<usize>>)
    ensures
        r@ == Seq::new(keys@.len(), |i: int| find_key(present.deep_view(), keys.deep_view()[i])),
{
    let mut r: Vec<Option<usize>> = Vec::new();
    let mut i: usize = 0;
    while i < keys.len()
        invariant
            i <= keys@.len(),
            r@.len() == i,
            forall|j: int| 0 <= j < i ==> r@[j] == find_key(present.deep_view(), keys.deep_view()[j]),
        decreases keys@.len() - i,
    {
        let x = reading_of(present, &keys[i]);
        r.push(x);
        i = i + 1;
    }
    assert(r@ =~= Seq::new(keys@.len(), |i: int| find_key(present.deep_view(), keys.deep_view()[i])));
    r
}

impl SnapshotPlan {
    /// Decides, for every field of the snapshot, which of the readings whose
    /// keys are `present` it draws from.
    pub fn build(p: &Profile, present: &Vec<String>) -> (r: SnapshotPlan)
        ensures
            r@ == plan_of(p@, present.deep_view()),
    {
        SnapshotPlan {
            cpu_p_temp: readings(present, &p.cpu_p_temp),
            cpu_power: readings(present, &p.cpu_clusters),
            cpu_e_temp: readings(present, &p.cpu_e_temp),
            gpu_temp: readings(present, &p.gpu_temp),
            dram_temp: readings(present, &p.dram_temp),
            dram_power: reading_of(present, &p.dram_power),
            ssd_temp: readings(present, &p.ssd_temp),
            battery_temp: readings(present, &p.battery_temp),
            hotspot: readings(present, &p.hotspot),
            fans: each_reading(present, &p.fans),
            total_power: reading_of(present, &p.system_power),
            cluster0: nth_reading(present, &p.cpu_clusters, 0),
            cluster1: nth_reading(present, &p.cpu_clusters, 1),
            grid_p: grid(present, &p.cpu_p_temp),
            grid_e: grid(present, &p.cpu_e_temp),
            grid_g: grid(present, &p.gpu_temp),
            rails: rail_plans(present, &p.rails),
            adapter_v: readings(present, &p.adapter_voltage),
            adapter_i: readings(present, &p.adapter_current),
            backlight_w: reading_of(present, &p.backlight_power),
            ane_temp: readings(present, &p.ane_temp),
        }
    }
}

/// The rail draws on reading `j`.
pub open spec fn rail_reads(r: RailPlanView, j: usize) -> bool {
    r.p == j || r.v == Some(j) || r.i == Some(j)
}

/// The plan draws on reading `j` for some field.
pub open spec fn plan_reads(pl: SnapshotPlanView, j: usize) -> bool {
    ||| pl.cpu_p_temp.contains(j)
    ||| pl.cpu_power.contains(j)
    ||| pl.cpu_e_temp.contains(j)
    ||| pl.gpu_temp.contains(j)
    ||| pl.dram_temp.contains(j)
    ||| pl.dram_power == Some(j)
    ||| pl.ssd_temp.contains(j)
    ||| pl.battery_temp.contains(j)
    ||| pl.hotspot.contains(j)
    ||| pl.fans.contains(Some(j))
    ||| pl.total_power == Some(j)
    ||| pl.cluster0 == Some(j)
    ||| pl.cluster1 == Some(j)
    ||| exists|t: int| 0 <= t < pl.grid_p.len() && #[trigger] pl.grid_p[t].1 == j
    ||| exists|t: int| 0 <= t < pl.grid_e.len() && #[trigger] pl.grid_e[t].1 == j
    ||| exists|t: int| 0 <= t < pl.grid_g.len() && #[trigger] pl.grid_g[t].1 == j
    ||| exists|t: int| 0 <= t < pl.rails.len() && rail_reads(#[trigger] pl.rails[t], j)
    ||| pl.adapter_v.contains(j)
    ||| pl.adapter_i.contains(j)
    ||| pl.backlight_w == Some(j)
    ||| pl.ane_temp.contains(j)
}

proof fn lemma_find_key_found(present: Seq<Seq<char>>, k: Seq<char>)
    requires
        present.len() <= usize::MAX,
    ensures
        find_key(present, k) matches Some(j) ==> j < present.len() && present[j as int] == k,
    decreases present.len(),
{
    if present.len() > 0 {
        lemma_find_key_found(present.drop_last(), k);
        if let Some(j) = find_key(present.drop_last(), k) {
            assert(present.drop_last()[j as int] == present[j as int]);
        }
        assert(present[present.len() - 1] == present.last());
    }
}

proof fn lemma_contains_left(a: Seq<Seq<char>>, b: Seq<Seq<char>>, x: Seq<char>)
    requires
        a.contains(x),
    ensures
        (a + b).contains(x),
{
    let t = choose|t: int| 0 <= t < a.len() && a[t] == x;
    assert((a + b)[t] == x);
}

proof fn lemma_contains_right(a: Seq<Seq<char>>, b: Seq<Seq<char>>, x: Seq<char>)
    requires
        b.contains(x),
    ensures
        (a + b).contains(x),
{
    let t = choose|t: int| 0 <= t < b.len() && b[t] == x;
    assert((a + b)[a.len() + t] == x);
}

proof fn lemma_readings_from_keys(present: Seq<Seq<char>>, keys: Seq<Seq<char>>, j: usize)
    requires
        present.len() <= usize::MAX,
        readings_of(present, keys).contains(j),
    ensures
        j < present.len(),
        keys.contains(present[j as int]),
    decreases keys.len(),
{
    let rest = readings_of(present, keys.drop_last());
    lemma_find_key_found(present, keys.last());
    if rest.contains(j) {
        lemma_readings_from_keys(present, keys.drop_last(), j);
        let t = choose|t: int| 0 <= t < keys.drop_last().len() && keys.drop_last()[t]
            == present[j as int];
        assert(keys[t] == present[j as int]);
    } else {
        assert(find_key(present, keys.last()) == Some(j));
        assert(keys[keys.len() - 1] == present[j as int]);
    }
}

proof fn lemma_grid_from_keys(present: Seq<Seq<char>>, keys: Seq<Seq<char>>, t: int)
    requires
        present.len() <= usize::MAX,
        0 <= t < grid_of(present, keys).len(),
    ensures
        grid_of(present, keys)[t].1 < present.len(),
        keys.contains(present[grid_of(present, keys)[t].1 as int]),
    decreases keys.len(),
{
    let rest = grid_of(present, keys.drop_last());
    lemma_find_key_found(present, keys.last());
    if t < rest.len() {
        lemma_grid_from_keys(present, keys.drop_last(), t);
        let j = rest[t].1;
        let u = choose|u: int| 0 <= u < keys.drop_last().len() && keys.drop_last()[u]
            == present[j as int];
        assert(keys[u] == present[j as int]);
    } else {
        assert(keys[keys.len() - 1] == keys.last());
    }
}

proof fn lemma_rail_keys_contain(rails: Seq<Seq<char>>, s: Seq<char>)
    requires
        rails.contains(s),
    ensures
        rail_keys(rails).contains("V"@ + s),
        rail_keys(rails).contains("I"@ + s),
        rail_keys(rails).contains("P"@ + s),
    decreases rails.len(),
{
    let rest = rail_keys(rails.drop_last());
    let last = rails.last();
    let tail = seq!["V"@ + last, "I"@ + last, "P"@ + last];
    if rails.drop_last().contains(s) {
        lemma_rail_keys_contain(rails.drop_last(), s);
        lemma_contains_left(rest, tail, "V"@ + s);
        lemma_contains_left(rest, tail, "I"@ + s);
        lemma_contains_left(rest, tail, "P"@ + s);
    } else {
        let t = choose|t: int| 0 <= t < rails.len() && rails[t] == s;
        if t < rails.len() - 1 {
            assert(rails.drop_last()[t] == s);
        }
        assert(last == s);
        assert(tail[0] == "V"@ + s);
        assert(tail[1] == "I"@ + s);
        assert(tail[2] == "P"@ + s);
        lemma_contains_right(rest, tail, "V"@ + s);
        lemma_contains_right(rest, tail, "I"@ + s);
        lemma_contains_right(rest, tail, "P"@ + s);
    }
}

proof fn lemma_rail_from_keys(present: Seq<Seq<char>>, rails: Seq<Seq<char>>, t: int)
    requires
        0 <= t < rails_of(present, rails).len(),
    ensures
        rails.contains(rails_of(present, rails)[t].key),
        find_key(present, "P"@ + rails_of(present, rails)[t].key) == Some(
            rails_of(present, rails)[t].p,
        ),
        find_key(present, "V"@ + rails_of(present, rails)[t].key) == rails_of(present, rails)[t].v,
        find_key(present, "I"@ + rails_of(present, rails)[t].key) == rails_of(present, rails)[t].i,
    decreases rails.len(),
{
    let rest = rails_of(present, rails.drop_last());
    if t < rest.len() {
        lemma_rail_from_keys(present, rails.drop_last(), t);
        let s = rest[t].key;
        let u = choose|u: int| 0 <= u < rails.drop_last().len() && rails.drop_last()[u] == s;
        assert(rails[u] == s);
    } else {
        assert(rails[rails.len() - 1] == rails.last());
    }
}

/// A rail key in the plan is one the batch reads.
proof fn lemma_rail_reading_wanted(p: ProfileView, present: Seq<Seq<char>>, k: Seq<char>, j: usize)
    requires
        present.len() <= usize::MAX,
        find_key(present, k) == Some(j),
        rail_keys(p.rails).contains(k),
    ensures
        j < present.len(),
        wanted(p).contains(present[j as int]),
{
    lemma_find_key_found(present, k);
    let head = p.cpu_p_temp + p.cpu_e_temp + p.gpu_temp + p.hotspot + p.dram_temp + p.ssd_temp
        + p.battery_temp + p.fans + p.cpu_clusters + seq![p.dram_power, p.system_power]
        + p.adapter_voltage + p.adapter_current + seq![p.backlight_power, p.backlight_current]
        + p.ane_temp;
    lemma_contains_right(head, rail_keys(p.rails), k);
}

/// Every profile key is in the batch.
proof fn lemma_profile_key_wanted(p: ProfileView, k: Seq<char>)
    requires
        p.cpu_p_temp.contains(k) || p.cpu_e_temp.contains(k) || p.gpu_temp.contains(k)
            || p.hotspot.contains(k) || p.dram_temp.contains(k) || p.ssd_temp.contains(k)
            || p.battery_temp.contains(k) || p.fans.contains(k) || p.cpu_clusters.contains(k)
            || k == p.dram_power || k == p.system_power || p.adapter_voltage.contains(k)
            || p.adapter_current.contains(k) || k == p.backlight_power || k
            == p.backlight_current || p.ane_temp.contains(k),
    ensures
        wanted(p).contains(k),
{
    let a1 = p.cpu_p_temp;
    let a2 = a1 + p.cpu_e_temp;
    let a3 = a2 + p.gpu_temp;
    let a4 = a3 + p.hotspot;
    let a5 = a4 + p.dram_temp;
    let a6 = a5 + p.ssd_temp;
    let a7 = a6 + p.battery_temp;
    let a8 = a7 + p.fans;
    let a9 = a8 + p.cpu_clusters;
    let pair1 = seq![p.dram_power, p.system_power];
    let a10 = a9 + pair1;
    let a11 = a10 + p.adapter_voltage;
    let a12 = a11 + p.adapter_current;
    let pair2 = seq![p.backlight_power, p.backlight_current];
    let a13 = a12 + pair2;
    let a14 = a13 + p.ane_temp;
    let all = a14 + rail_keys(p.rails);
    if a1.contains(k) {
        lemma_contains_left(a1, p.cpu_e_temp, k);
    } else if p.cpu_e_temp.contains(k) {
        lemma_contains_right(a1, p.cpu_e_temp, k);
    }
    if a2.contains(k) {
        lemma_contains_left(a2, p.gpu_temp, k);
    } else if p.gpu_temp.contains(k) {
        lemma_contains_right(a2, p.gpu_temp, k);
    }
    if a3.contains(k) {
        lemma_contains_left(a3, p.hotspot, k);
    } else if p.hotspot.contains(k) {
        lemma_contains_right(a3, p.hotspot, k);
    }
    if a4.contains(k) {
        lemma_contains_left(a4, p.dram_temp, k);
    } else if p.dram_temp.contains(k) {
        lemma_contains_right(a4, p.dram_temp, k);
    }
    if a5.contains(k) {
        lemma_contains_left(a5, p.ssd_temp, k);
    } else if p.ssd_temp.contains(k) {
        lemma_contains_right(a5, p.ssd_temp, k);
    }
    if a6.contains(k) {
        lemma_contains_left(a6, p.battery_temp, k);
    } else if p.battery_temp.contains(k) {
        lemma_contains_right(a6, p.battery_temp, k);
    }
    if a7.contains(k) {
        lemma_contains_left(a7, p.fans, k);
    } else if p.fans.contains(k) {
        lemma_contains_right(a7, p.fans, k);
    }
    if a8.contains(k) {
        lemma_contains_left(a8, p.cpu_clusters, k);
    } else if p.cpu_clusters.contains(k) {
        lemma_contains_right(a8, p.cpu_clusters, k);
    }
    assert(pair1[0] == p.dram_power && pair1[1] == p.system_power);
    if a9.contains(k) {
        lemma_contains_left(a9, pair1, k);
    } else if pair1.contains(k) {
        lemma_contains_right(a9, pair1, k);
    }
    if a10.contains(k) {
        lemma_contains_left(a10, p.adapter_voltage, k);
    } else if p.adapter_voltage.contains(k) {
        lemma_contains_right(a10, p.adapter_voltage, k);
    }
    if a11.contains(k) {
        lemma_contains_left(a11, p.adapter_current, k);
    } else if p.adapter_current.contains(k) {
        lemma_contains_right(a11, p.adapter_current, k);
    }
    assert(pair2[0] == p.backlight_power && pair2[1] == p.backlight_current);
    if a12.contains(k) {
        lemma_contains_left(a12, pair2, k);
    } else if pair2.contains(k) {
        lemma_contains_right(a12, pair2, k);
    }
    if a13.contains(k) {
        lemma_contains_left(a13, p.ane_temp, k);
    } else if p.ane_temp.contains(k) {
        lemma_contains_right(a13, p.ane_temp, k);
    }
    lemma_contains_left(a14, rail_keys(p.rails), k);
}

/// A reading of `keys` is the reading of a key the batch reads.
proof fn lemma_keys_reading_wanted(
    p: ProfileView,
    present: Seq<Seq<char>>,
    keys: Seq<Seq<char>>,
    j: usize,
)
    requires
        j < present.len(),
        keys.contains(present[j as int]),
        keys == p.cpu_p_temp || keys == p.cpu_e_temp || keys == p.gpu_temp || keys == p.hotspot
            || keys == p.dram_temp || keys == p.ssd_temp || keys == p.battery_temp || keys
            == p.fans || keys == p.cpu_clusters || keys == p.adapter_voltage || keys
            == p.adapter_current || keys == p.ane_temp,
    ensures
        wanted(p).contains(present[j as int]),
{
    lemma_profile_key_wanted(p, present[j as int]);
}

/// A reading a rail draws on is the reading of a key the batch reads.
proof fn lemma_rails_reading_wanted(p: ProfileView, present: Seq<Seq<char>>, j: usize)
    requires
        present.len() <= usize::MAX,
        exists|t: int|
            0 <= t < rails_of(present, p.rails).len() && rail_reads(
                #[trigger] rails_of(present, p.rails)[t],
                j,
            ),
    ensures
        j < present.len(),
        wanted(p).contains(present[j as int]),
{
    let rs = rails_of(present, p.rails);
    let t = choose|t: int| 0 <= t < rs.len() && rail_reads(#[trigger] rs[t], j);
    lemma_rail_from_keys(present, p.rails, t);
    let s = rs[t].key;
    lemma_rail_keys_contain(p.rails, s);
    if rs[t].p == j {
        lemma_rail_reading_wanted(p, present, "P"@ + s, j);
    } else if rs[t].v == Some(j) {
        lemma_rail_reading_wanted(p, present, "V"@ + s, j);
    } else {
        lemma_rail_reading_wanted(p, present, "I"@ + s, j);
    }
}

/// The reduction reads nothing outside the batch: every reading the plan
/// draws on is the reading of a key that `wanted_keys` gathered.
pub proof fn law_plan_reads_only_wanted(p: ProfileView, present: Seq<Seq<char>>, j: usize)
    requires
        present.len() <= usize::MAX,
        plan_reads(plan_of(p, present), j),
    ensures
        j < present.len(),
        wanted(p).contains(present[j as int]),
{
    let pl = plan_of(p, present);
    if pl.cpu_p_temp.contains(j) {
        lemma_readings_from_keys(present, p.cpu_p_temp, j);
        lemma_keys_reading_wanted(p, present, p.cpu_p_temp, j);
    } else if pl.cpu_power.contains(j) {
        lemma_readings_from_keys(present, p.cpu_clusters, j);
        lemma_keys_reading_wanted(p, present, p.cpu_clusters, j);
    } else if pl.cpu_e_temp.contains(j) {
        lemma_readings_from_keys(present, p.cpu_e_temp, j);
        lemma_keys_reading_wanted(p, present, p.cpu_e_temp, j);
    } else if pl.gpu_temp.contains(j) {
        lemma_readings_from_keys(present, p.gpu_temp, j);
        lemma_keys_reading_wanted(p, present, p.gpu_temp, j);
    } else if pl.dram_temp.contains(j) {
        lemma_readings_from_keys(present, p.dram_temp, j);
        lemma_keys_reading_wanted(p, present, p.dram_temp, j);
    } else if pl.dram_power == Some(j) {
        lemma_find_key_found(present, p.dram_power);
        lemma_profile_key_wanted(p, present[j as int]);
    } else if pl.ssd_temp.contains(j) {
        lemma_readings_from_keys(present, p.ssd_temp, j);
        lemma_keys_reading_wanted(p, present, p.ssd_temp, j);
    } else if pl.battery_temp.contains(j) {
        lemma_readings_from_keys(present, p.battery_temp, j);
        lemma_keys_reading_wanted(p, present, p.battery_temp, j);
    } else if pl.hotspot.contains(j) {
        lemma_readings_from_keys(present, p.hotspot, j);
        lemma_keys_reading_wanted(p, present, p.hotspot, j);
    } else if pl.fans.contains(Some(j)) {
        let t = choose|t: int| 0 <= t < pl.fans.len() && pl.fans[t] == Some(j);
        lemma_find_key_found(present, p.fans[t]);
        assert(p.fans.contains(present[j as int]));
        lemma_keys_reading_wanted(p, present, p.fans, j);
    } else if pl.total_power == Some(j) {
        lemma_find_key_found(present, p.system_power);
        lemma_profile_key_wanted(p, present[j as int]);
    } else if pl.cluster0 == Some(j) {
        lemma_find_key_found(present, p.cpu_clusters[0]);
        assert(p.cpu_clusters.contains(present[j as int]));
        lemma_keys_reading_wanted(p, present, p.cpu_clusters, j);
    } else if pl.cluster1 == Some(j) {
        lemma_find_key_found(present, p.cpu_clusters[1]);
        assert(p.cpu_clusters.contains(present[j as int]));
        lemma_keys_reading_wanted(p, present, p.cpu_clusters, j);
    } else if exists|t: int| 0 <= t < pl.grid_p.len() && #[trigger] pl.grid_p[t].1 == j {
        let t = choose|t: int| 0 <= t < pl.grid_p.len() && #[trigger] pl.grid_p[t].1 == j;
        lemma_grid_from_keys(present, p.cpu_p_temp, t);
        lemma_keys_reading_wanted(p, present, p.cpu_p_temp, j);
    } else if exists|t: int| 0 <= t < pl.grid_e.len() && #[trigger] pl.grid_e[t].1 == j {
        let t = choose|t: int| 0 <= t < pl.grid_e.len() && #[trigger] pl.grid_e[t].1 == j;
        lemma_grid_from_keys(present, p.cpu_e_temp, t);
        lemma_keys_reading_wanted(p, present, p.cpu_e_temp, j);
    } else if exists|t: int| 0 <= t < pl.grid_g.len() && #[trigger] pl.grid_g[t].1 == j {
        let t = choose|t: int| 0 <= t < pl.grid_g.len() && #[trigger] pl.grid_g[t].1 == j;
        lemma_grid_from_keys(present, p.gpu_temp, t);
        lemma_keys_reading_wanted(p, present, p.gpu_temp, j);
    } else if exists|t: int| 0 <= t < pl.rails.len() && rail_reads(#[trigger] pl.rails[t], j) {
        lemma_rails_reading_wanted(p, present, j);
    } else if pl.adapter_v.contains(j) {
        lemma_readings_from_keys(present, p.adapter_voltage, j);
        lemma_keys_reading_wanted(p, present, p.adapter_voltage, j);
    } else if pl.adapter_i.contains(j) {
        lemma_readings_from_keys(present, p.adapter_current, j);
        lemma_keys_reading_wanted(p, present, p.adapter_current, j);
    } else if pl.backlight_w == Some(j) {
        lemma_find_key_found(present, p.backlight_power);
        lemma_profile_key_wanted(p, present[j as int]);
    } else {
        lemma_readings_from_keys(present, p.ane_temp, j);
        lemma_keys_reading_wanted(p, present, p.ane_temp, j);
    }
}

/// The key a reading was taken for.
pub open spec fn key_of(present: Seq<Seq<char>>, i: usize) -> Seq<char> {
    present[i as int]
}

/// The key an optional reading was taken for.
pub open spec fn opt_key_of(present: Seq<Seq<char>>, o: Option<usize>) -> Option<Seq<char>> {
    match o {
        Some(i) => Some(key_of(present, i)),
        None => None,
    }
}

/// The keys a list of readings was taken for.
pub open spec fn keys_of(present: Seq<Seq<char>>, ix: Seq<usize>) -> Seq<Seq<char>> {
    ix.map_values(|i: usize| key_of(present, i))
}

/// A rail with the keys its readings were taken for.
pub struct RailKeys {
    pub key: Seq<char>,
    pub v: Option<Seq<char>>,
    pub i: Option<Seq<char>>,
    pub p: Seq<char>,
}

/// A plan with every reading replaced by the key it was taken for: which
/// sensor each field of the snapshot is computed from.
pub struct PlanKeys {
    pub cpu_p_temp: Seq<Seq<char>>,
    pub cpu_power: Seq<Seq<char>>,
    pub cpu_e_temp: Seq<Seq<char>>,
    pub gpu_temp: Seq<Seq<char>>,
    pub dram_temp: Seq<Seq<char>>,
    pub dram_power: Option<Seq<char>>,
    pub ssd_temp: Seq<Seq<char>>,
    pub battery_temp: Seq<Seq<char>>,
    pub hotspot: Seq<Seq<char>>,
    pub fans: Seq<Option<Seq<char>>>,
    pub total_power: Option<Seq<char>>,
    pub cluster0: Option<Seq<char>>,
    pub cluster1: Option<Seq<char>>,
    pub grid_p: Seq<(Seq<char>, Seq<char>)>,
    pub grid_e: Seq<(Seq<char>, Seq<char>)>,
    pub grid_g: Seq<(Seq<char>, Seq<char>)>,
    pub rails: Seq<RailKeys>,
    pub adapter_v: Seq<Seq<char>>,
    pub adapter_i: Seq<Seq<char>>,
    pub backlight_w: Option<Seq<char>>,
    pub ane_temp: Seq<Seq<char>>,
}

/// The cells of a grid with the keys their readings were taken for.
pub open spec fn grid_keys(present: Seq<Seq<char>>, g: Seq<(Seq<char>, usize)>) -> Seq<(Seq<char>, Seq<char>)> {
    g.map_values(|c: (Seq<char>, usize)| (c.0, key_of(present, c.1)))
}

/// A rail with the keys its readings were taken for.
pub open spec fn rail_keys_of(present: Seq<Seq<char>>, r: RailPlanView) -> RailKeys {
    RailKeys {
        key: r.key,
        v: opt_key_of(present, r.v),
        i: opt_key_of(present, r.i),
        p: key_of(present, r.p),
    }
}

/// Which sensor each field of the plan is computed from.
pub open spec fn plan_keys(pl: SnapshotPlanView, present: Seq<Seq<char>>) -> PlanKeys {
    PlanKeys {
        cpu_p_temp: keys_of(present, pl.cpu_p_temp),
        cpu_power: keys_of(present, pl.cpu_power),
        cpu_e_temp: keys_of(present, pl.cpu_e_temp),
        gpu_temp: keys_of(present, pl.gpu_temp),
        dram_temp: keys_of(present, pl.dram_temp),
        dram_power: opt_key_of(present, pl.dram_power),
        ssd_temp: keys_of(present, pl.ssd_temp),
        battery_temp: keys_of(present, pl.battery_temp),
        hotspot: keys_of(present, pl.hotspot),
        fans: pl.fans.map_values(|o: Option<usize>| opt_key_of(present, o)),
        total_power: opt_key_of(present, pl.total_power),
        cluster0: opt_key_of(present, pl.cluster0),
        cluster1: opt_key_of(present, pl.cluster1),
        grid_p: grid_keys(present, pl.grid_p),
        grid_e: grid_keys(present, pl.grid_e),
        grid_g: grid_keys(present, pl.grid_g),
        rails: pl.rails.map_values(|r: RailPlanView| rail_keys_of(present, r)),
        adapter_v: keys_of(present, pl.adapter_v),
        adapter_i: keys_of(present, pl.adapter_i),
        backlight_w: opt_key_of(present, pl.backlight_w),
        ane_temp: keys_of(present, pl.ane_temp),
    }
}

/// Two lists of read keys agree on whether `k` was read.
pub open spec fn agree_on(p1: Seq<Seq<char>>, p2: Seq<Seq<char>>, k: Seq<char>) -> bool {
    p1.contains(k) <==> p2.contains(k)
}

proof fn lemma_find_key_none(present: Seq<Seq<char>>, k: Seq<char>)
    ensures
        find_key(present, k) is None ==> !present.contains(k),
    decreases present.len(),
{
    if present.len() > 0 {
        lemma_find_key_none(present.drop_last(), k);
        if find_key(present, k) is None && present.contains(k) {
            let t = choose|t: int| 0 <= t < present.len() && present[t] == k;
            if t < present.len() - 1 {
                assert(present.drop_last()[t] == k);
            }
        }
    }
}

/// The key found for `k` is `k` itself, exactly when `k` was read.
proof fn lemma_opt_key_found(present: Seq<Seq<char>>, k: Seq<char>)
    requires
        present.len() <= usize::MAX,
    ensures
        opt_key_of(present, find_key(present, k)) == if present.contains(k) {
            Some(k)
        } else {
            None
        },
{
    lemma_find_key_found(present, k);
    lemma_find_key_none(present, k);
    if let Some(j) = find_key(present, k) {
        assert(present.contains(k));
    }
}

proof fn lemma_same_key(p1: Seq<Seq<char>>, p2: Seq<Seq<char>>, k: Seq<char>)
    requires
        p1.len() <= usize::MAX,
        p2.len() <= usize::MAX,
        agree_on(p1, p2, k),
    ensures
        opt_key_of(p1, find_key(p1, k)) == opt_key_of(p2, find_key(p2, k)),
{
    lemma_opt_key_found(p1, k);
    lemma_opt_key_found(p2, k);
}

proof fn lemma_same_readings(p1: Seq<Seq<char>>, p2: Seq<Seq<char>>, ks: Seq<Seq<char>>)
    requires
        p1.len() <= usize::MAX,
        p2.len() <= usize::MAX,
        forall|t: int| 0 <= t < ks.len() ==> agree_on(p1, p2, #[trigger] ks[t]),
    ensures
        keys_of(p1, readings_of(p1, ks)) == keys_of(p2, readings_of(p2, ks)),
        grid_keys(p1, grid_of(p1, ks)) == grid_keys(p2, grid_of(p2, ks)),
    decreases ks.len(),
{
    if ks.len() > 0 {
        let k = ks.last();
        assert(agree_on(p1, p2, ks[ks.len() - 1]));
        assert forall|t: int| 0 <= t < ks.drop_last().len() implies agree_on(
            p1,
            p2,
            #[trigger] ks.drop_last()[t],
        ) by {
            assert(ks.drop_last()[t] == ks[t]);
        }
        lemma_same_readings(p1, p2, ks.drop_last());
        lemma_opt_key_found(p1, k);
        lemma_opt_key_found(p2, k);
        lemma_find_key_found(p1, k);
        lemma_find_key_found(p2, k);
        let r1 = readings_of(p1, ks.drop_last());
        let r2 = readings_of(p2, ks.drop_last());
        let g1 = grid_of(p1, ks.drop_last());
        let g2 = grid_of(p2, ks.drop_last());
        match find_key(p1, k) {
            Some(j1) => {
                let j2 = find_key(p2, k)->0;
                assert(keys_of(p1, r1.push(j1)) =~= keys_of(p1, r1).push(k));
                assert(keys_of(p2, r2.push(j2)) =~= keys_of(p2, r2).push(k));
                assert(grid_keys(p1, g1.push((k, j1))) =~= grid_keys(p1, g1).push((k, k)));
                assert(grid_keys(p2, g2.push((k, j2))) =~= grid_keys(p2, g2).push((k, k)));
            },
            None => {},
        }
    }
}

proof fn lemma_same_rails(p1: Seq<Seq<char>>, p2: Seq<Seq<char>>, rails: Seq<Seq<char>>)
    requires
        p1.len() <= usize::MAX,
        p2.len() <= usize::MAX,
        forall|t: int|
            0 <= t < rails.len() ==> {
                &&& agree_on(p1, p2, "V"@ + #[trigger] rails[t])
                &&& agree_on(p1, p2, "I"@ + rails[t])
                &&& agree_on(p1, p2, "P"@ + rails[t])
            },
    ensures
        rails_of(p1, rails).map_values(|r: RailPlanView| rail_keys_of(p1, r)) == rails_of(
            p2,
            rails,
        ).map_values(|r: RailPlanView| rail_keys_of(p2, r)),
    decreases rails.len(),
{
    if rails.len() > 0 {
        let s = rails.last();
        assert(rails[rails.len() - 1] == s);
        assert forall|t: int| 0 <= t < rails.drop_last().len() implies {
            &&& agree_on(p1, p2, "V"@ + #[trigger] rails.drop_last()[t])
            &&& agree_on(p1, p2, "I"@ + rails.drop_last()[t])
            &&& agree_on(p1, p2, "P"@ + rails.drop_last()[t])
        } by {
            assert(rails.drop_last()[t] == rails[t]);
        }
        lemma_same_rails(p1, p2, rails.drop_last());
        lemma_same_key(p1, p2, "V"@ + s);
        lemma_same_key(p1, p2, "I"@ + s);
        lemma_same_key(p1, p2, "P"@ + s);
        lemma_opt_key_found(p1, "P"@ + s);
        lemma_opt_key_found(p2, "P"@ + s);
        let f1 = |r: RailPlanView| rail_keys_of(p1, r);
        let f2 = |r: RailPlanView| rail_keys_of(p2, r);
        let r1 = rails_of(p1, rails.drop_last());
        let r2 = rails_of(p2, rails.drop_last());
        match find_key(p1, "P"@ + s) {
            Some(q1) => {
                let q2 = find_key(p2, "P"@ + s)->0;
                let x1 = RailPlanView {
                    key: s,
                    v: find_key(p1, "V"@ + s),
                    i: find_key(p1, "I"@ + s),
                    p: q1,
                };
                let x2 = RailPlanView {
                    key: s,
                    v: find_key(p2, "V"@ + s),
                    i: find_key(p2, "I"@ + s),
                    p: q2,
                };
                assert(r1.push(x1).map_values(f1) =~= r1.map_values(f1).push(f1(x1)));
                assert(r2.push(x2).map_values(f2) =~= r2.map_values(f2).push(f2(x2)));
                assert(f1(x1) == f2(x2));
            },
            None => {},
        }
    }
}

/// Every key of a list field of the profile is read in the batch.
proof fn lemma_list_agrees(p: ProfileView, p1: Seq<Seq<char>>, p2: Seq<Seq<char>>, ks: Seq<Seq<char>>)
    requires
        forall|k: Seq<char>| wanted(p).contains(k) ==> #[trigger] agree_on(p1, p2, k),
        ks == p.cpu_p_temp || ks == p.cpu_e_temp || ks == p.gpu_temp || ks == p.hotspot || ks
            == p.dram_temp || ks == p.ssd_temp || ks == p.battery_temp || ks == p.fans || ks
            == p.cpu_clusters || ks == p.adapter_voltage || ks == p.adapter_current || ks
            == p.ane_temp,
    ensures
        forall|t: int| 0 <= t < ks.len() ==> agree_on(p1, p2, #[trigger] ks[t]),
{
    assert forall|t: int| 0 <= t < ks.len() implies agree_on(p1, p2, #[trigger] ks[t]) by {
        assert(ks.contains(ks[t]));
        lemma_profile_key_wanted(p, ks[t]);
    }
}

/// The snapshot depends on the readings of the batch alone: when two reads
/// agree on which of the keys `wanted_keys` gathered they returned (and, for
/// those, on the values), every field of the snapshot is computed from the
/// same sensors. Readings of keys the profile does not reference never change
/// the snapshot.
pub proof fn law_plan_depends_only_on_batch(
    p: ProfileView,
    present1: Seq<Seq<char>>,
    present2: Seq<Seq<char>>,
)
    requires
        present1.len() <= usize::MAX,
        present2.len() <= usize::MAX,
        forall|k: Seq<char>| wanted(p).contains(k) ==> #[trigger] agree_on(present1, present2, k),
    ensures
        plan_keys(plan_of(p, present1), present1) == plan_keys(plan_of(p, present2), present2),
{
    let (p1, p2) = (present1, present2);
    lemma_list_agrees(p, p1, p2, p.cpu_p_temp);
    lemma_list_agrees(p, p1, p2, p.cpu_e_temp);
    lemma_list_agrees(p, p1, p2, p.gpu_temp);
    lemma_list_agrees(p, p1, p2, p.hotspot);
    lemma_list_agrees(p, p1, p2, p.dram_temp);
    lemma_list_agrees(p, p1, p2, p.ssd_temp);
    lemma_list_agrees(p, p1, p2, p.battery_temp);
    lemma_list_agrees(p, p1, p2, p.fans);
    lemma_list_agrees(p, p1, p2, p.cpu_clusters);
    lemma_list_agrees(p, p1, p2, p.adapter_voltage);
    lemma_list_agrees(p, p1, p2, p.adapter_current);
    lemma_list_agrees(p, p1, p2, p.ane_temp);
    lemma_same_readings(p1, p2, p.cpu_p_temp);
    lemma_same_readings(p1, p2, p.cpu_e_temp);
    lemma_same_readings(p1, p2, p.gpu_temp);
    lemma_same_readings(p1, p2, p.hotspot);
    lemma_same_readings(p1, p2, p.dram_temp);
    lemma_same_readings(p1, p2, p.ssd_temp);
    lemma_same_readings(p1, p2, p.battery_temp);
    lemma_same_readings(p1, p2, p.cpu_clusters);
    lemma_same_readings(p1, p2, p.adapter_voltage);
    lemma_same_readings(p1, p2, p.adapter_current);
    lemma_same_readings(p1, p2, p.ane_temp);
    lemma_profile_key_wanted(p, p.dram_power);
    lemma_profile_key_wanted(p, p.system_power);
    lemma_profile_key_wanted(p, p.backlight_power);
    lemma_same_key(p1, p2, p.dram_power);
    lemma_same_key(p1, p2, p.system_power);
    lemma_same_key(p1, p2, p.backlight_power);
    if p.cpu_clusters.len() > 0 {
        lemma_same_key(p1, p2, p.cpu_clusters[0]);
    }
    if p.cpu_clusters.len() > 1 {
        lemma_same_key(p1, p2, p.cpu_clusters[1]);
    }
    let fans1 = plan_of(p, p1).fans.map_values(|o: Option<usize>| opt_key_of(p1, o));
    let fans2 = plan_of(p, p2).fans.map_values(|o: Option<usize>| opt_key_of(p2, o));
    assert forall|t: int| 0 <= t < fans1.len() implies fans1[t] == fans2[t] by {
        lemma_same_key(p1, p2, p.fans[t]);
    }
    assert(fans1 =~= fans2);
    assert forall|t: int| 0 <= t < p.rails.len() implies {
        &&& agree_on(p1, p2, "V"@ + #[trigger] p.rails[t])
        &&& agree_on(p1, p2, "I"@ + p.rails[t])
        &&& agree_on(p1, p2, "P"@ + p.rails[t])
    } by {
        assert(p.rails.contains(p.rails[t]));
        lemma_rail_keys_contain(p.rails, p.rails[t]);
        let head = p.cpu_p_temp + p.cpu_e_temp + p.gpu_temp + p.hotspot + p.dram_temp
            + p.ssd_temp + p.battery_temp + p.fans + p.cpu_clusters + seq![
            p.dram_power,
            p.system_power,
        ] + p.adapter_voltage + p.adapter_current + seq![p.backlight_power, p.backlight_current]
            + p.ane_temp;
        lemma_contains_right(head, rail_keys(p.rails), "V"@ + p.rails[t]);
        lemma_contains_right(head, rail_keys(p.rails), "I"@ + p.rails[t]);
        lemma_contains_right(head, rail_keys(p.rails), "P"@ + p.rails[t]);
    }
    lemma_same_rails(p1, p2, p.rails);
}

/// The test that a key was read.
pub open spec fn read_in(present: Seq<Seq<char>>) -> spec_fn(Seq<char>) -> bool {
    |k: Seq<char>| present.contains(k)
}

/// The test that a rail's power was read.
pub open spec fn power_read_in(present: Seq<Seq<char>>) -> spec_fn(Seq<char>) -> bool {
    |s: Seq<char>| present.contains("P"@ + s)
}

/// The key `k`, if it was read.
pub open spec fn if_read(present: Seq<Seq<char>>, k: Seq<char>) -> Option<Seq<char>> {
    if present.contains(k) {
        Some(k)
    } else {
        None
    }
}

/// Every index names a reading.
pub open spec fn all_below(ix: Seq<usize>, n: nat) -> bool {
    forall|t: int| 0 <= t < ix.len() ==> #[trigger] ix[t] < n
}

proof fn lemma_readings_keys(present: Seq<Seq<char>>, ks: Seq<Seq<char>>)
    requires
        present.len() <= usize::MAX,
    ensures
        keys_of(present, readings_of(present, ks)) == ks.filter(read_in(present)),
        grid_keys(present, grid_of(present, ks)) == ks.filter(read_in(present)).map_values(
            |k: Seq<char>| (k, k),
        ),
        all_below(readings_of(present, ks), present.len()),
    decreases ks.len(),
{
    if ks.len() == 0 {
        assert(ks.filter(read_in(present)) =~= ks) by {
            reveal(Seq::filter);
        }
        assert(keys_of(present, readings_of(present, ks)) =~= seq![]);
        assert(grid_keys(present, grid_of(present, ks)) =~= seq![]);
    } else {
        let init = ks.drop_last();
        let k = ks.last();
        lemma_readings_keys(present, init);
        init.lemma_filter_push(k, read_in(present));
        assert(init.push(k) =~= ks);
        lemma_opt_key_found(present, k);
        lemma_find_key_found(present, k);
        let r = readings_of(present, init);
        let g = grid_of(present, init);
        let f = ks.filter(read_in(present));
        let f0 = init.filter(read_in(present));
        match find_key(present, k) {
            Some(j) => {
                assert(keys_of(present, r.push(j)) =~= keys_of(present, r).push(k));
                assert(grid_keys(present, g.push((k, j))) =~= grid_keys(present, g).push((k, k)));
                assert(f0.push(k).map_values(|k: Seq<char>| (k, k)) =~= f0.map_values(
                    |k: Seq<char>| (k, k),
                ).push((k, k)));
                assert forall|t: int| 0 <= t < r.push(j).len() implies #[trigger] r.push(j)[t]
                    < present.len() by {
                    if t < r.len() {
                        assert(r.push(j)[t] == r[t]);
                    }
                }
            },
            None => {},
        }
    }
}

proof fn lemma_rails_keys(present: Seq<Seq<char>>, rails: Seq<Seq<char>>)
    requires
        present.len() <= usize::MAX,
    ensures
        rails_of(present, rails).map_values(|r: RailPlanView| r.key) == rails.filter(
            power_read_in(present),
        ),
        forall|t: int|
            0 <= t < rails_of(present, rails).len() ==> {
                let r = #[trigger] rails_of(present, rails)[t];
                &&& r.p < present.len()
                &&& key_of(present, r.p) == "P"@ + r.key
                &&& opt_key_of(present, r.v) == if_read(present, "V"@ + r.key)
                &&& opt_key_of(present, r.i) == if_read(present, "I"@ + r.key)
            },
    decreases rails.len(),
{
    let rs = rails_of(present, rails);
    if rails.len() == 0 {
        assert(rails.filter(power_read_in(present)) =~= rails) by {
            reveal(Seq::filter);
        }
        assert(rs.map_values(|r: RailPlanView| r.key) =~= seq![]);
    } else {
        let init = rails.drop_last();
        let s = rails.last();
        lemma_rails_keys(present, init);
        init.lemma_filter_push(s, power_read_in(present));
        assert(init.push(s) =~= rails);
        lemma_opt_key_found(present, "P"@ + s);
        lemma_opt_key_found(present, "V"@ + s);
        lemma_opt_key_found(present, "I"@ + s);
        lemma_find_key_found(present, "P"@ + s);
        let r0 = rails_of(present, init);
        match find_key(present, "P"@ + s) {
            Some(q) => {
                let x = RailPlanView {
                    key: s,
                    v: find_key(present, "V"@ + s),
                    i: find_key(present, "I"@ + s),
                    p: q,
                };
                assert(rs == r0.push(x));
                assert(r0.push(x).map_values(|r: RailPlanView| r.key) =~= r0.map_values(
                    |r: RailPlanView| r.key,
                ).push(s));
                assert forall|t: int| 0 <= t < rs.len() implies {
                    let r = #[trigger] rs[t];
                    &&& r.p < present.len()
                    &&& key_of(present, r.p) == "P"@ + r.key
                    &&& opt_key_of(present, r.v) == if_read(present, "V"@ + r.key)
                    &&& opt_key_of(present, r.i) == if_read(present, "I"@ + r.key)
                } by {
                    if t < r0.len() {
                        assert(rs[t] == r0[t]);
                    }
                }
            },
            None => {},
        }
    }
}

/// Each field of the plan draws only on readings of the keys of its own
/// profile list, in the list's order, and on every one of them that was read:
/// the keys behind a field's readings are its profile keys that were read.
/// Single-key fields read their own key exactly when it was read; each rail
/// that appears is a profile rail whose power was read, with its own voltage,
/// current and power keys; and every reading named exists.
pub proof fn law_plan_fields_draw_on_own_keys(p: ProfileView, present: Seq<Seq<char>>)
    requires
        present.len() <= usize::MAX,
    ensures
        keys_of(present, plan_of(p, present).cpu_p_temp) == p.cpu_p_temp.filter(read_in(present)),
        keys_of(present, plan_of(p, present).cpu_power) == p.cpu_clusters.filter(read_in(present)),
        keys_of(present, plan_of(p, present).cpu_e_temp) == p.cpu_e_temp.filter(read_in(present)),
        keys_of(present, plan_of(p, present).gpu_temp) == p.gpu_temp.filter(read_in(present)),
        keys_of(present, plan_of(p, present).dram_temp) == p.dram_temp.filter(read_in(present)),
        keys_of(present, plan_of(p, present).ssd_temp) == p.ssd_temp.filter(read_in(present)),
        keys_of(present, plan_of(p, present).battery_temp) == p.battery_temp.filter(
            read_in(present),
        ),
        keys_of(present, plan_of(p, present).hotspot) == p.hotspot.filter(read_in(present)),
        keys_of(present, plan_of(p, present).adapter_v) == p.adapter_voltage.filter(
            read_in(present),
        ),
        keys_of(present, plan_of(p, present).adapter_i) == p.adapter_current.filter(
            read_in(present),
        ),
        keys_of(present, plan_of(p, present).ane_temp) == p.ane_temp.filter(read_in(present)),
        all_below(plan_of(p, present).cpu_p_temp, present.len()),
        all_below(plan_of(p, present).cpu_power, present.len()),
        all_below(plan_of(p, present).cpu_e_temp, present.len()),
        all_below(plan_of(p, present).gpu_temp, present.len()),
        all_below(plan_of(p, present).dram_temp, present.len()),
        all_below(plan_of(p, present).ssd_temp, present.len()),
        all_below(plan_of(p, present).battery_temp, present.len()),
        all_below(plan_of(p, present).hotspot, present.len()),
        all_below(plan_of(p, present).adapter_v, present.len()),
        all_below(plan_of(p, present).adapter_i, present.len()),
        all_below(plan_of(p, present).ane_temp, present.len()),
        grid_keys(present, plan_of(p, present).grid_p) == p.cpu_p_temp.filter(
            read_in(present),
        ).map_values(|k: Seq<char>| (k, k)),
        grid_keys(present, plan_of(p, present).grid_e) == p.cpu_e_temp.filter(
            read_in(present),
        ).map_values(|k: Seq<char>| (k, k)),
        grid_keys(present, plan_of(p, present).grid_g) == p.gpu_temp.filter(
            read_in(present),
        ).map_values(|k: Seq<char>| (k, k)),
        opt_key_of(present, plan_of(p, present).dram_power) == if_read(present, p.dram_power),
        opt_key_of(present, plan_of(p, present).total_power) == if_read(present, p.system_power),
        opt_key_of(present, plan_of(p, present).backlight_w) == if_read(
            present,
            p.backlight_power,
        ),
        opt_key_of(present, plan_of(p, present).cluster0) == if p.cpu_clusters.len() > 0 {
            if_read(present, p.cpu_clusters[0])
        } else {
            None
        },
        opt_key_of(present, plan_of(p, present).cluster1) == if p.cpu_clusters.len() > 1 {
            if_read(present, p.cpu_clusters[1])
        } else {
            None
        },
        plan_of(p, present).fans.len() == p.fans.len(),
        forall|t: int|
            0 <= t < p.fans.len() ==> opt_key_of(present, #[trigger] plan_of(p, present).fans[t])
                == if_read(present, p.fans[t]),
        plan_of(p, present).rails.map_values(|r: RailPlanView| r.key) == p.rails.filter(
            power_read_in(present),
        ),
        forall|t: int|
            0 <= t < plan_of(p, present).rails.len() ==> {
                let r = #[trigger] plan_of(p, present).rails[t];
                &&& r.p < present.len()
                &&& key_of(present, r.p) == "P"@ + r.key
                &&& opt_key_of(present, r.v) == if_read(present, "V"@ + r.key)
                &&& opt_key_of(present, r.i) == if_read(present, "I"@ + r.key)
            },
{
    lemma_readings_keys(present, p.cpu_p_temp);
    lemma_readings_keys(present, p.cpu_clusters);
    lemma_readings_keys(present, p.cpu_e_temp);
    lemma_readings_keys(present, p.gpu_temp);
    lemma_readings_keys(present, p.dram_temp);
    lemma_readings_keys(present, p.ssd_temp);
    lemma_readings_keys(present, p.battery_temp);
    lemma_readings_keys(present, p.hotspot);
    lemma_readings_keys(present, p.adapter_voltage);
    lemma_readings_keys(present, p.adapter_current);
    lemma_readings_keys(present, p.ane_temp);
    lemma_opt_key_found(present, p.dram_power);
    lemma_opt_key_found(present, p.system_power);
    lemma_opt_key_found(present, p.backlight_power);
    if p.cpu_clusters.len() > 0 {
        lemma_opt_key_found(present, p.cpu_clusters[0]);
    }
    if p.cpu_clusters.len() > 1 {
        lemma_opt_key_found(present, p.cpu_clusters[1]);
    }
    assert forall|t: int| 0 <= t < p.fans.len() implies opt_key_of(
        present,
        #[trigger] plan_of(p, present).fans[t],
    ) == if_read(present, p.fans[t]) by {
        lemma_opt_key_found(present, p.fans[t]);
    }
    lemma_rails_keys(present, p.rails);
}

} // verus!
