//! The JSON texts the probe harness and the twin page consume. Numbers arrive
//! already formatted; these functions frame them. Keys and values are written
//! as they are, without escaping.
use vstd::prelude::*;

verus! {

/// `items` separated by `sep`.
pub open spec fn joined(items: Seq<Seq<char>>, sep: Seq<char>) -> Seq<char>
    decreases items.len(),
{
    if items.len() == 0 {
        seq![]
    } else if items.len() == 1 {
        items[0]
    } else {
        joined(items.drop_last(), sep) + sep + items.last()
    }
}

/// `items` separated by commas.
pub fn join_with_commas(items: &Vec<String>) -> (r: String)
    ensures
        r@ == joined(items.deep_view(), ","@),
{
    let ghost iv = items.deep_view();
    let mut r = String::new();
    let mut i: usize = 0;
    while i < items.len()
        invariant
            iv == items.deep_view(),
            i <= iv.len(),
            r@ == joined(iv.take(i as int), ","@),
        decreases iv.len() - i,
    {
        assert(iv.take(i + 1).drop_last() =~= iv.take(i as int));
        assert(iv.take(i + 1).last() == iv[i as int]);
        assert(iv[i as int] == items@[i as int]@);
        if i > 0 {
            r.append(",");
            r.append(items[i].as_str());
        } else {
            r.append(items[i].as_str());
            assert(iv.take(1).len() == 1);
            assert(r@ =~= iv.take(1)[0]);
        }
        i = i + 1;
    }
    assert(iv.take(i as int) =~= iv);
    r
}

/// `{` + `members` separated by commas + `}`.
pub open spec fn object(members: Seq<Seq<char>>) -> Seq<char> {
    "{"@ + joined(members, ","@) + "}"@
}

/// `[` + `elements` separated by commas + `]`.
pub open spec fn array(elements: Seq<Seq<char>>) -> Seq<char> {
    "["@ + joined(elements, ","@) + "]"@
}

/// Wraps comma-separated `items` in `open` and `close`.
fn framed(open: &str, items: &Vec<String>, close: &str) -> (r: String)
    ensures
        r@ == open@ + joined(items.deep_view(), ","@) + close@,
{
    let body = join_with_commas(items);
    let mut r = String::from_str(open);
    r.append(body.as_str());
    r.append(close);
    r
}

/// One `"key":"type"` member of the schema object.
pub open spec fn schema_member(key: Seq<char>, typ: Seq<char>) -> Seq<char> {
    "\""@ + key + "\":\""@ + typ + "\""@
}

/// One `"key":value` member of the values object.
pub open spec fn value_member(key: Seq<char>, value: Seq<char>) -> Seq<char> {
    "\""@ + key + "\":"@ + value
}

/// One `{"k":"key","v":value}` cell of a temperature grid.
pub open spec fn cell_element(key: Seq<char>, value: Seq<char>) -> Seq<char> {
    "{\"k\":\""@ + key + "\",\"v\":"@ + value + "}"@
}

/// The members of a list of pairs, each made by `member`.
pub open spec fn members(pairs: Seq<(Seq<char>, Seq<char>)>, member: spec_fn(Seq<char>, Seq<char>) -> Seq<char>) -> Seq<Seq<char>> {
    Seq::new(pairs.len(), |i: int| member(pairs[i].0, pairs[i].1))
}

/// The pieces `a`, `b`, `c` as one string.
fn three(a: &str, b: &str, c: &str) -> (r: String)
    ensures
        r@ == a@ + b@ + c@,
{
    let mut r = String::from_str(a);
    r.append(b);
    r.append(c);
    r
}

/// The pieces `a` to `e` as one string.
fn five(a: &str, b: &str, c: &str, d: &str, e: &str) -> (r: String)
    ensures
        r@ == a@ + b@ + c@ + d@ + e@,
{
    let mut r = String::from_str(a);
    r.append(b);
    r.append(c);
    r.append(d);
    r.append(e);
    r
}

/// One JSON object of every key to its decode type, keys in schema order.
pub fn schema_json(schema: &Vec<(String, String)>) -> (r: String)
    ensures
        r@ == object(members(schema.deep_view(), |k: Seq<char>, t: Seq<char>| schema_member(k, t))),
{
    let ghost ms = members(schema.deep_view(), |k: Seq<char>, t: Seq<char>| schema_member(k, t));
    let mut items: Vec<String> = Vec::new();
    let mut i: usize = 0;
    while i < schema.len()
        invariant
            ms == members(schema.deep_view(), |k: Seq<char>, t: Seq<char>| schema_member(k, t)),
            i <= schema@.len(),
            items.deep_view() == ms.take(i as int),
        decreases schema@.len() - i,
    {
        let m = five("\"", schema[i].0.as_str(), "\":\"", schema[i].1.as_str(), "\"");
        assert(m@ == ms[i as int]);
        let ghost before = items.deep_view();
        items.push(m);
        assert(items.deep_view() =~= before.push(m@));
        i = i + 1;
        assert(ms.take(i as int) =~= before.push(m@));
    }
    assert(ms.take(i as int) =~= ms);
    framed("{", &items, "}")
}

/// One JSON object of every key to its already formatted value.
pub fn values_json(values: &Vec<(String, String)>) -> (r: String)
    ensures
        r@ == object(members(values.deep_view(), |k: Seq<char>, v: Seq<char>| value_member(k, v))),
{
    let ghost ms = members(values.deep_view(), |k: Seq<char>, v: Seq<char>| value_member(k, v));
    let mut items: Vec<String> = Vec::new();
    let mut i: usize = 0;
    while i < values.len()
        invariant
            ms == members(values.deep_view(), |k: Seq<char>, v: Seq<char>| value_member(k, v)),
            i <= values@.len(),
            items.deep_view() == ms.take(i as int),
        decreases values@.len() - i,
    {
        let m = three("\"", values[i].0.as_str(), "\":");
        let mut m = m;
        m.append(values[i].1.as_str());
        assert(m@ == ms[i as int]);
        let ghost before = items.deep_view();
        items.push(m);
        assert(items.deep_view() =~= before.push(m@));
        i = i + 1;
        assert(ms.take(i as int) =~= before.push(m@));
    }
    assert(ms.take(i as int) =~= ms);
    framed("{", &items, "}")
}

/// A grid of temperature cells as a JSON array, in grid order.
pub fn grid_json(cells: &Vec<(String, String)>) -> (r: String)
    ensures
        r@ == array(members(cells.deep_view(), |k: Seq<char>, v: Seq<char>| cell_element(k, v))),
{
    let ghost ms = members(cells.deep_view(), |k: Seq<char>, v: Seq<char>| cell_element(k, v));
    let mut items: Vec<String> = Vec::new();
    let mut i: usize = 0;
    while i < cells.len()
        invariant
            ms == members(cells.deep_view(), |k: Seq<char>, v: Seq<char>| cell_element(k, v)),
            i <= cells@.len(),
            items.deep_view() == ms.take(i as int),
        decreases cells@.len() - i,
    {
        let m = five("{\"k\":\"", cells[i].0.as_str(), "\",\"v\":", cells[i].1.as_str(), "}");
        assert(m@ == ms[i as int]);
        let ghost before = items.deep_view();
        items.push(m);
        assert(items.deep_view() =~= before.push(m@));
        i = i + 1;
        assert(ms.take(i as int) =~= before.push(m@));
    }
    assert(ms.take(i as int) =~= ms);
    framed("[", &items, "]")
}

/// An optional formatted number: the number, or `null`.
pub open spec fn opt_text(v: Option<Seq<char>>) -> Seq<char> {
    match v {
        Some(x) => x,
        None => "null"@,
    }
}

/// The characters of an optional formatted number.
pub open spec fn opt_view(v: Option<String>) -> Option<Seq<char>> {
    match v {
        Some(x) => Some(x@),
        None => None,
    }
}

/// Appends an optional formatted number, or `null`.
fn append_opt(r: &mut String, v: &Option<String>)
    ensures
        final(r)@ == old(r)@ + opt_text(opt_view(*v)),
{
    match v {
        Some(x) => r.append(x.as_str()),
        None => r.append("null"),
    }
}

/// One power rail with its readings already formatted.
pub struct RailText {
    pub key: String,
    pub v: Option<String>,
    pub i: Option<String>,
    pub p: String,
}

/// One `{"k":"key","v":v,"i":i,"p":p}` element of the rails array.
pub open spec fn rail_element(r: RailText) -> Seq<char> {
    "{\"k\":\""@ + r.key@ + "\",\"v\":"@ + opt_text(opt_view(r.v)) + ",\"i\":"@ + opt_text(
        opt_view(r.i),
    ) + ",\"p\":"@ + r.p@ + "}"@
}

/// The rails as a JSON array, in order.
pub fn rails_json(rails: &Vec<RailText>) -> (r: String)
    ensures
        r@ == array(rails@.map_values(|x: RailText| rail_element(x))),
{
    let ghost ms = rails@.map_values(|x: RailText| rail_element(x));
    let mut items: Vec<String> = Vec::new();
    let mut i: usize = 0;
    while i < rails.len()
        invariant
            ms == rails@.map_values(|x: RailText| rail_element(x)),
            i <= rails@.len(),
            items.deep_view() == ms.take(i as int),
        decreases rails@.len() - i,
    {
        let x = &rails[i];
        let mut m = three("{\"k\":\"", x.key.as_str(), "\",\"v\":");
        append_opt(&mut m, &x.v);
        m.append(",\"i\":");
        append_opt(&mut m, &x.i);
        m.append(",\"p\":");
        m.append(x.p.as_str());
        m.append("}");
        assert(m@ == ms[i as int]);
        let ghost before = items.deep_view();
        items.push(m);
        assert(items.deep_view() =~= before.push(m@));
        i = i + 1;
        assert(ms.take(i as int) =~= before.push(m@));
    }
    assert(ms.take(i as int) =~= ms);
    framed("[", &items, "]")
}

/// A snapshot with its numbers already formatted and its grids and rails
/// already rendered as JSON arrays.
pub struct SnapshotText {
    pub cpu_p_temp: Option<String>,
    pub cpu_p_power: Option<String>,
    pub cpu_e_temp: Option<String>,
    pub hotspot: Option<String>,
    pub gpu_temp: Option<String>,
    pub dram_temp: Option<String>,
    pub dram_power: Option<String>,
    pub ssd_temp: Option<String>,
    pub battery_temp: Option<String>,
    pub fan0: Option<String>,
    pub fan1: Option<String>,
    pub total_power: Option<String>,
    pub cluster0: Option<String>,
    pub cluster1: Option<String>,
    pub adapter_v: Option<String>,
    pub adapter_i: Option<String>,
    pub charger_present: bool,
    pub backlight_w: Option<String>,
    pub ane_temp: Option<String>,
    pub grid_p: String,
    pub grid_e: String,
    pub grid_g: String,
    pub rails: String,
}

/// `true` or `false`.
pub open spec fn bool_text(b: bool) -> Seq<char> {
    if b {
        "true"@
    } else {
        "false"@
    }
}

/// The JSON shape the twin page consumes.
pub open spec fn snapshot_object(t: SnapshotText) -> Seq<char> {
    "{\"cpu_p\":{\"temp\":"@ + opt_text(opt_view(t.cpu_p_temp)) + ",\"power\":"@ + opt_text(
        opt_view(t.cpu_p_power),
    ) + "},\"cpu_e\":{\"temp\":"@ + opt_text(opt_view(t.cpu_e_temp)) + "},\"hotspot\":"@
        + opt_text(opt_view(t.hotspot)) + ",\"gpu\":{\"temp\":"@ + opt_text(opt_view(t.gpu_temp))
        + "},\"dram\":{\"temp\":"@ + opt_text(opt_view(t.dram_temp)) + ",\"power\":"@ + opt_text(
        opt_view(t.dram_power),
    ) + "},\"ssd\":{\"temp\":"@ + opt_text(opt_view(t.ssd_temp)) + "},\"battery\":{\"temp\":"@
        + opt_text(opt_view(t.battery_temp)) + "},\"fans\":[{\"rpm\":"@ + opt_text(
        opt_view(t.fan0),
    ) + "},{\"rpm\":"@ + opt_text(opt_view(t.fan1)) + "}],\"power\":{\"total\":"@ + opt_text(
        opt_view(t.total_power),
    ) + ",\"cluster0\":"@ + opt_text(opt_view(t.cluster0)) + ",\"cluster1\":"@ + opt_text(
        opt_view(t.cluster1),
    ) + "},\"adapter\":{\"v\":"@ + opt_text(opt_view(t.adapter_v)) + ",\"i\":"@ + opt_text(
        opt_view(t.adapter_i),
    ) + ",\"present\":"@ + bool_text(t.charger_present) + "},\"backlight\":{\"power\":"@
        + opt_text(opt_view(t.backlight_w)) + "},\"ane\":{\"temp\":"@ + opt_text(
        opt_view(t.ane_temp),
    ) + "},\"grid_p\":"@ + t.grid_p@ + ",\"grid_e\":"@ + t.grid_e@ + ",\"grid_g\":"@ + t.grid_g@
        + ",\"rails\":"@ + t.rails@ + "}"@
}

/// Serializes a formatted snapshot to the JSON shape the twin page consumes.
pub fn snapshot_json(t: &SnapshotText) -> (r: String)
    ensures
        r@ == snapshot_object(*t),
{
    let mut r = String::from_str("{\"cpu_p\":{\"temp\":");
    append_opt(&mut r, &t.cpu_p_temp);
    r.append(",\"power\":");
    append_opt(&mut r, &t.cpu_p_power);
    r.append("},\"cpu_e\":{\"temp\":");
    append_opt(&mut r, &t.cpu_e_temp);
    r.append("},\"hotspot\":");
    append_opt(&mut r, &t.hotspot);
    r.append(",\"gpu\":{\"temp\":");
    append_opt(&mut r, &t.gpu_temp);
    r.append("},\"dram\":{\"temp\":");
    append_opt(&mut r, &t.dram_temp);
    r.append(",\"power\":");
    append_opt(&mut r, &t.dram_power);
    r.append("},\"ssd\":{\"temp\":");
    append_opt(&mut r, &t.ssd_temp);
    r.append("},\"battery\":{\"temp\":");
    append_opt(&mut r, &t.battery_temp);
    r.append("},\"fans\":[{\"rpm\":");
    append_opt(&mut r, &t.fan0);
    r.append("},{\"rpm\":");
    append_opt(&mut r, &t.fan1);
    r.append("}],\"power\":{\"total\":");
    append_opt(&mut r, &t.total_power);
    r.append(",\"cluster0\":");
    append_opt(&mut r, &t.cluster0);
    r.append(",\"cluster1\":");
    append_opt(&mut r, &t.cluster1);
    r.append("},\"adapter\":{\"v\":");
    append_opt(&mut r, &t.adapter_v);
    r.append(",\"i\":");
    append_opt(&mut r, &t.adapter_i);
    r.append(",\"present\":");
    if t.charger_present {
        r.append("true");
    } else {
        r.append("false");
    }
    r.append("},\"backlight\":{\"power\":");
    append_opt(&mut r, &t.backlight_w);
    r.append("},\"ane\":{\"temp\":");
    append_opt(&mut r, &t.ane_temp);
    r.append("},\"grid_p\":");
    r.append(t.grid_p.as_str());
    r.append(",\"grid_e\":");
    r.append(t.grid_e.as_str());
    r.append(",\"grid_g\":");
    r.append(t.grid_g.as_str());
    r.append(",\"rails\":");
    r.append(t.rails.as_str());
    r.append("}");
    r
}

/// Piece `j` of the snapshot object: literal text at even `j`, the member
/// value of field `(j - 1) / 2` at odd `j`.
pub open spec fn snapshot_piece(t: SnapshotText, j: int) -> Seq<char> {
    if j == 0 {
        "{\"cpu_p\":{\"temp\":"@
    } else if j == 1 {
        opt_text(opt_view(t.cpu_p_temp))
    } else if j == 2 {
        ",\"power\":"@
    } else if j == 3 {
        opt_text(opt_view(t.cpu_p_power))
    } else if j == 4 {
        "},\"cpu_e\":{\"temp\":"@
    } else if j == 5 {
        opt_text(opt_view(t.cpu_e_temp))
    } else if j == 6 {
        "},\"hotspot\":"@
    } else if j == 7 {
        opt_text(opt_view(t.hotspot))
    } else if j == 8 {
        ",\"gpu\":{\"temp\":"@
    } else if j == 9 {
        opt_text(opt_view(t.gpu_temp))
    } else if j == 10 {
        "},\"dram\":{\"temp\":"@
    } else if j == 11 {
        opt_text(opt_view(t.dram_temp))
    } else if j == 12 {
        ",\"power\":"@
    } else if j == 13 {
        opt_text(opt_view(t.dram_power))
    } else if j == 14 {
        "},\"ssd\":{\"temp\":"@
    } else if j == 15 {
        opt_text(opt_view(t.ssd_temp))
    } else if j == 16 {
        "},\"battery\":{\"temp\":"@
    } else if j == 17 {
        opt_text(opt_view(t.battery_temp))
    } else if j == 18 {
        "},\"fans\":[{\"rpm\":"@
    } else if j == 19 {
        opt_text(opt_view(t.fan0))
    } else if j == 20 {
        "},{\"rpm\":"@
    } else if j == 21 {
        opt_text(opt_view(t.fan1))
    } else if j == 22 {
        "}],\"power\":{\"total\":"@
    } else if j == 23 {
        opt_text(opt_view(t.total_power))
    } else if j == 24 {
        ",\"cluster0\":"@
    } else if j == 25 {
        opt_text(opt_view(t.cluster0))
    } else if j == 26 {
        ",\"cluster1\":"@
    } else if j == 27 {
        opt_text(opt_view(t.cluster1))
    } else if j == 28 {
        "},\"adapter\":{\"v\":"@
    } else if j == 29 {
        opt_text(opt_view(t.adapter_v))
    } else if j == 30 {
        ",\"i\":"@
    } else if j == 31 {
        opt_text(opt_view(t.adapter_i))
    } else if j == 32 {
        ",\"present\":"@
    } else if j == 33 {
        bool_text(t.charger_present)
    } else if j == 34 {
        "},\"backlight\":{\"power\":"@
    } else if j == 35 {
        opt_text(opt_view(t.backlight_w))
    } else if j == 36 {
        "},\"ane\":{\"temp\":"@
    } else if j == 37 {
        opt_text(opt_view(t.ane_temp))
    } else if j == 38 {
        "},\"grid_p\":"@
    } else if j == 39 {
        t.grid_p@
    } else if j == 40 {
        ",\"grid_e\":"@
    } else if j == 41 {
        t.grid_e@
    } else if j == 42 {
        ",\"grid_g\":"@
    } else if j == 43 {
        t.grid_g@
    } else if j == 44 {
        ",\"rails\":"@
    } else if j == 45 {
        t.rails@
    } else {
        "}"@
    }
}

/// The first `n` pieces of the snapshot object, joined.
pub open spec fn snapshot_prefix(t: SnapshotText, n: nat) -> Seq<char>
    decreases n,
{
    if n == 0 {
        seq![]
    } else {
        snapshot_prefix(t, (n - 1) as nat) + snapshot_piece(t, n - 1)
    }
}

proof fn lemma_snapshot_prefix(t: SnapshotText)
    ensures
        snapshot_object(t) == snapshot_prefix(t, 47),
{
    reveal_with_fuel(snapshot_prefix, 48);
}

proof fn lemma_cancel_left(a: Seq<char>, x: Seq<char>, y: Seq<char>)
    requires
        a + x == a + y,
    ensures
        x == y,
{
    assert(x =~= (a + x).skip(a.len() as int));
    assert(y =~= (a + y).skip(a.len() as int));
}

proof fn lemma_cancel_right(x: Seq<char>, y: Seq<char>, b: Seq<char>)
    requires
        x + b == y + b,
    ensures
        x == y,
{
    assert(x =~= (x + b).take(x.len() as int));
    assert(y =~= (y + b).take(y.len() as int));
}

/// Prefixes that agree on every piece but `k` and join to the same text
/// agree on piece `k` too.
proof fn lemma_prefix_cancel(t1: SnapshotText, t2: SnapshotText, n: nat, k: int)
    requires
        0 <= k < n,
        forall|j: int| 0 <= j < n && j != k ==> #[trigger] snapshot_piece(t1, j) == snapshot_piece(t2, j),
        snapshot_prefix(t1, n) == snapshot_prefix(t2, n),
    ensures
        snapshot_piece(t1, k) == snapshot_piece(t2, k),
    decreases n,
{
    let m = (n - 1) as nat;
    if k == m {
        lemma_prefix_same(t1, t2, m);
        lemma_cancel_left(snapshot_prefix(t1, m), snapshot_piece(t1, k), snapshot_piece(t2, k));
    } else {
        assert(snapshot_piece(t1, m as int) == snapshot_piece(t2, m as int));
        lemma_cancel_right(snapshot_prefix(t1, m), snapshot_prefix(t2, m), snapshot_piece(t1, m as int));
        lemma_prefix_cancel(t1, t2, m, k);
    }
}

/// Prefixes that agree on every piece are equal.
proof fn lemma_prefix_same(t1: SnapshotText, t2: SnapshotText, n: nat)
    requires
        forall|j: int| 0 <= j < n ==> #[trigger] snapshot_piece(t1, j) == snapshot_piece(t2, j),
    ensures
        snapshot_prefix(t1, n) == snapshot_prefix(t2, n),
    decreases n,
{
    if n > 0 {
        lemma_prefix_same(t1, t2, (n - 1) as nat);
        assert(snapshot_piece(t1, n - 1) == snapshot_piece(t2, n - 1));
    }
}

/// The `cpu_p_temp` member is written from `cpu_p_temp` alone.
pub proof fn law_snapshot_member_cpu_p_temp(t1: SnapshotText, t2: SnapshotText)
    requires
        t1.cpu_p_power == t2.cpu_p_power,
        t1.cpu_e_temp == t2.cpu_e_temp,
        t1.hotspot == t2.hotspot,
        t1.gpu_temp == t2.gpu_temp,
        t1.dram_temp == t2.dram_temp,
        t1.dram_power == t2.dram_power,
        t1.ssd_temp == t2.ssd_temp,
        t1.battery_temp == t2.battery_temp,
        t1.fan0 == t2.fan0,
        t1.fan1 == t2.fan1,
        t1.total_power == t2.total_power,
        t1.cluster0 == t2.cluster0,
        t1.cluster1 == t2.cluster1,
        t1.adapter_v == t2.adapter_v,
        t1.adapter_i == t2.adapter_i,
        t1.charger_present == t2.charger_present,
        t1.backlight_w == t2.backlight_w,
        t1.ane_temp == t2.ane_temp,
        t1.grid_p == t2.grid_p,
        t1.grid_e == t2.grid_e,
        t1.grid_g == t2.grid_g,
        t1.rails == t2.rails,
        snapshot_object(t1) == snapshot_object(t2),
    ensures
        opt_text(opt_view(t1.cpu_p_temp)) == opt_text(opt_view(t2.cpu_p_temp)),
{
    lemma_snapshot_prefix(t1);
    lemma_snapshot_prefix(t2);
    assert forall|j: int| 0 <= j < 47 && j != 1 implies #[trigger] snapshot_piece(t1, j)
        == snapshot_piece(t2, j) by {}
    lemma_prefix_cancel(t1, t2, 47, 1);
}

/// The `cpu_p_power` member is written from `cpu_p_power` alone.
pub proof fn law_snapshot_member_cpu_p_power(t1: SnapshotText, t2: SnapshotText)
    requires
        t1.cpu_p_temp == t2.cpu_p_temp,
        t1.cpu_e_temp == t2.cpu_e_temp,
        t1.hotspot == t2.hotspot,
        t1.gpu_temp == t2.gpu_temp,
        t1.dram_temp == t2.dram_temp,
        t1.dram_power == t2.dram_power,
        t1.ssd_temp == t2.ssd_temp,
        t1.battery_temp == t2.battery_temp,
        t1.fan0 == t2.fan0,
        t1.fan1 == t2.fan1,
        t1.total_power == t2.total_power,
        t1.cluster0 == t2.cluster0,
        t1.cluster1 == t2.cluster1,
        t1.adapter_v == t2.adapter_v,
        t1.adapter_i == t2.adapter_i,
        t1.charger_present == t2.charger_present,
        t1.backlight_w == t2.backlight_w,
        t1.ane_temp == t2.ane_temp,
        t1.grid_p == t2.grid_p,
        t1.grid_e == t2.grid_e,
        t1.grid_g == t2.grid_g,
        t1.rails == t2.rails,
        snapshot_object(t1) == snapshot_object(t2),
    ensures
        opt_text(opt_view(t1.cpu_p_power)) == opt_text(opt_view(t2.cpu_p_power)),
{
    lemma_snapshot_prefix(t1);
    lemma_snapshot_prefix(t2);
    assert forall|j: int| 0 <= j < 47 && j != 3 implies #[trigger] snapshot_piece(t1, j)
        == snapshot_piece(t2, j) by {}
    lemma_prefix_cancel(t1, t2, 47, 3);
}

/// The `cpu_e_temp` member is written from `cpu_e_temp` alone.
pub proof fn law_snapshot_member_cpu_e_temp(t1: SnapshotText, t2: SnapshotText)
    requires
        t1.cpu_p_temp == t2.cpu_p_temp,
        t1.cpu_p_power == t2.cpu_p_power,
        t1.hotspot == t2.hotspot,
        t1.gpu_temp == t2.gpu_temp,
        t1.dram_temp == t2.dram_temp,
        t1.dram_power == t2.dram_power,
        t1.ssd_temp == t2.ssd_temp,
        t1.battery_temp == t2.battery_temp,
        t1.fan0 == t2.fan0,
        t1.fan1 == t2.fan1,
        t1.total_power == t2.total_power,
        t1.cluster0 == t2.cluster0,
        t1.cluster1 == t2.cluster1,
        t1.adapter_v == t2.adapter_v,
        t1.adapter_i == t2.adapter_i,
        t1.charger_present == t2.charger_present,
        t1.backlight_w == t2.backlight_w,
        t1.ane_temp == t2.ane_temp,
        t1.grid_p == t2.grid_p,
        t1.grid_e == t2.grid_e,
        t1.grid_g == t2.grid_g,
        t1.rails == t2.rails,
        snapshot_object(t1) == snapshot_object(t2),
    ensures
        opt_text(opt_view(t1.cpu_e_temp)) == opt_text(opt_view(t2.cpu_e_temp)),
{
    lemma_snapshot_prefix(t1);
    lemma_snapshot_prefix(t2);
    assert forall|j: int| 0 <= j < 47 && j != 5 implies #[trigger] snapshot_piece(t1, j)
        == snapshot_piece(t2, j) by {}
    lemma_prefix_cancel(t1, t2, 47, 5);
}

/// The `hotspot` member is written from `hotspot` alone.
pub proof fn law_snapshot_member_hotspot(t1: SnapshotText, t2: SnapshotText)
    requires
        t1.cpu_p_temp == t2.cpu_p_temp,
        t1.cpu_p_power == t2.cpu_p_power,
        t1.cpu_e_temp == t2.cpu_e_temp,
        t1.gpu_temp == t2.gpu_temp,
        t1.dram_temp == t2.dram_temp,
        t1.dram_power == t2.dram_power,
        t1.ssd_temp == t2.ssd_temp,
        t1.battery_temp == t2.battery_temp,
        t1.fan0 == t2.fan0,
        t1.fan1 == t2.fan1,
        t1.total_power == t2.total_power,
        t1.cluster0 == t2.cluster0,
        t1.cluster1 == t2.cluster1,
        t1.adapter_v == t2.adapter_v,
        t1.adapter_i == t2.adapter_i,
        t1.charger_present == t2.charger_present,
        t1.backlight_w == t2.backlight_w,
        t1.ane_temp == t2.ane_temp,
        t1.grid_p == t2.grid_p,
        t1.grid_e == t2.grid_e,
        t1.grid_g == t2.grid_g,
        t1.rails == t2.rails,
        snapshot_object(t1) == snapshot_object(t2),
    ensures
        opt_text(opt_view(t1.hotspot)) == opt_text(opt_view(t2.hotspot)),
{
    lemma_snapshot_prefix(t1);
    lemma_snapshot_prefix(t2);
    assert forall|j: int| 0 <= j < 47 && j != 7 implies #[trigger] snapshot_piece(t1, j)
        == snapshot_piece(t2, j) by {}
    lemma_prefix_cancel(t1, t2, 47, 7);
}

/// The `gpu_temp` member is written from `gpu_temp` alone.
pub proof fn law_snapshot_member_gpu_temp(t1: SnapshotText, t2: SnapshotText)
    requires
        t1.cpu_p_temp == t2.cpu_p_temp,
        t1.cpu_p_power == t2.cpu_p_power,
        t1.cpu_e_temp == t2.cpu_e_temp,
        t1.hotspot == t2.hotspot,
        t1.dram_temp == t2.dram_temp,
        t1.dram_power == t2.dram_power,
        t1.ssd_temp == t2.ssd_temp,
        t1.battery_temp == t2.battery_temp,
        t1.fan0 == t2.fan0,
        t1.fan1 == t2.fan1,
        t1.total_power == t2.total_power,
        t1.cluster0 == t2.cluster0,
        t1.cluster1 == t2.cluster1,
        t1.adapter_v == t2.adapter_v,
        t1.adapter_i == t2.adapter_i,
        t1.charger_present == t2.charger_present,
        t1.backlight_w == t2.backlight_w,
        t1.ane_temp == t2.ane_temp,
        t1.grid_p == t2.grid_p,
        t1.grid_e == t2.grid_e,
        t1.grid_g == t2.grid_g,
        t1.rails == t2.rails,
        snapshot_object(t1) == snapshot_object(t2),
    ensures
        opt_text(opt_view(t1.gpu_temp)) == opt_text(opt_view(t2.gpu_temp)),
{
    lemma_snapshot_prefix(t1);
    lemma_snapshot_prefix(t2);
    assert forall|j: int| 0 <= j < 47 && j != 9 implies #[trigger] snapshot_piece(t1, j)
        == snapshot_piece(t2, j) by {}
    lemma_prefix_cancel(t1, t2, 47, 9);
}

/// The `dram_temp` member is written from `dram_temp` alone.
pub proof fn law_snapshot_member_dram_temp(t1: SnapshotText, t2: SnapshotText)
    requires
        t1.cpu_p_temp == t2.cpu_p_temp,
        t1.cpu_p_power == t2.cpu_p_power,
        t1.cpu_e_temp == t2.cpu_e_temp,
        t1.hotspot == t2.hotspot,
        t1.gpu_temp == t2.gpu_temp,
        t1.dram_power == t2.dram_power,
        t1.ssd_temp == t2.ssd_temp,
        t1.battery_temp == t2.battery_temp,
        t1.fan0 == t2.fan0,
        t1.fan1 == t2.fan1,
        t1.total_power == t2.total_power,
        t1.cluster0 == t2.cluster0,
        t1.cluster1 == t2.cluster1,
        t1.adapter_v == t2.adapter_v,
        t1.adapter_i == t2.adapter_i,
        t1.charger_present == t2.charger_present,
        t1.backlight_w == t2.backlight_w,
        t1.ane_temp == t2.ane_temp,
        t1.grid_p == t2.grid_p,
        t1.grid_e == t2.grid_e,
        t1.grid_g == t2.grid_g,
        t1.rails == t2.rails,
        snapshot_object(t1) == snapshot_object(t2),
    ensures
        opt_text(opt_view(t1.dram_temp)) == opt_text(opt_view(t2.dram_temp)),
{
    lemma_snapshot_prefix(t1);
    lemma_snapshot_prefix(t2);
    assert forall|j: int| 0 <= j < 47 && j != 11 implies #[trigger] snapshot_piece(t1, j)
        == snapshot_piece(t2, j) by {}
    lemma_prefix_cancel(t1, t2, 47, 11);
}

/// The `dram_power` member is written from `dram_power` alone.
pub proof fn law_snapshot_member_dram_power(t1: SnapshotText, t2: SnapshotText)
    requires
        t1.cpu_p_temp == t2.cpu_p_temp,
        t1.cpu_p_power == t2.cpu_p_power,
        t1.cpu_e_temp == t2.cpu_e_temp,
        t1.hotspot == t2.hotspot,
        t1.gpu_temp == t2.gpu_temp,
        t1.dram_temp == t2.dram_temp,
        t1.ssd_temp == t2.ssd_temp,
        t1.battery_temp == t2.battery_temp,
        t1.fan0 == t2.fan0,
        t1.fan1 == t2.fan1,
        t1.total_power == t2.total_power,
        t1.cluster0 == t2.cluster0,
        t1.cluster1 == t2.cluster1,
        t1.adapter_v == t2.adapter_v,
        t1.adapter_i == t2.adapter_i,
        t1.charger_present == t2.charger_present,
        t1.backlight_w == t2.backlight_w,
        t1.ane_temp == t2.ane_temp,
        t1.grid_p == t2.grid_p,
        t1.grid_e == t2.grid_e,
        t1.grid_g == t2.grid_g,
        t1.rails == t2.rails,
        snapshot_object(t1) == snapshot_object(t2),
    ensures
        opt_text(opt_view(t1.dram_power)) == opt_text(opt_view(t2.dram_power)),
{
    lemma_snapshot_prefix(t1);
    lemma_snapshot_prefix(t2);
    assert forall|j: int| 0 <= j < 47 && j != 13 implies #[trigger] snapshot_piece(t1, j)
        == snapshot_piece(t2, j) by {}
    lemma_prefix_cancel(t1, t2, 47, 13);
}

/// The `ssd_temp` member is written from `ssd_temp` alone.
pub proof fn law_snapshot_member_ssd_temp(t1: SnapshotText, t2: SnapshotText)
    requires
        t1.cpu_p_temp == t2.cpu_p_temp,
        t1.cpu_p_power == t2.cpu_p_power,
        t1.cpu_e_temp == t2.cpu_e_temp,
        t1.hotspot == t2.hotspot,
        t1.gpu_temp == t2.gpu_temp,
        t1.dram_temp == t2.dram_temp,
        t1.dram_power == t2.dram_power,
        t1.battery_temp == t2.battery_temp,
        t1.fan0 == t2.fan0,
        t1.fan1 == t2.fan1,
        t1.total_power == t2.total_power,
        t1.cluster0 == t2.cluster0,
        t1.cluster1 == t2.cluster1,
        t1.adapter_v == t2.adapter_v,
        t1.adapter_i == t2.adapter_i,
        t1.charger_present == t2.charger_present,
        t1.backlight_w == t2.backlight_w,
        t1.ane_temp == t2.ane_temp,
        t1.grid_p == t2.grid_p,
        t1.grid_e == t2.grid_e,
        t1.grid_g == t2.grid_g,
        t1.rails == t2.rails,
        snapshot_object(t1) == snapshot_object(t2),
    ensures
        opt_text(opt_view(t1.ssd_temp)) == opt_text(opt_view(t2.ssd_temp)),
{
    lemma_snapshot_prefix(t1);
    lemma_snapshot_prefix(t2);
    assert forall|j: int| 0 <= j < 47 && j != 15 implies #[trigger] snapshot_piece(t1, j)
        == snapshot_piece(t2, j) by {}
    lemma_prefix_cancel(t1, t2, 47, 15);
}

/// The `battery_temp` member is written from `battery_temp` alone.
pub proof fn law_snapshot_member_battery_temp(t1: SnapshotText, t2: SnapshotText)
    requires
        t1.cpu_p_temp == t2.cpu_p_temp,
        t1.cpu_p_power == t2.cpu_p_power,
        t1.cpu_e_temp == t2.cpu_e_temp,
        t1.hotspot == t2.hotspot,
        t1.gpu_temp == t2.gpu_temp,
        t1.dram_temp == t2.dram_temp,
        t1.dram_power == t2.dram_power,
        t1.ssd_temp == t2.ssd_temp,
        t1.fan0 == t2.fan0,
        t1.fan1 == t2.fan1,
        t1.total_power == t2.total_power,
        t1.cluster0 == t2.cluster0,
        t1.cluster1 == t2.cluster1,
        t1.adapter_v == t2.adapter_v,
        t1.adapter_i == t2.adapter_i,
        t1.charger_present == t2.charger_present,
        t1.backlight_w == t2.backlight_w,
        t1.ane_temp == t2.ane_temp,
        t1.grid_p == t2.grid_p,
        t1.grid_e == t2.grid_e,
        t1.grid_g == t2.grid_g,
        t1.rails == t2.rails,
        snapshot_object(t1) == snapshot_object(t2),
    ensures
        opt_text(opt_view(t1.battery_temp)) == opt_text(opt_view(t2.battery_temp)),
{
    lemma_snapshot_prefix(t1);
    lemma_snapshot_prefix(t2);
    assert forall|j: int| 0 <= j < 47 && j != 17 implies #[trigger] snapshot_piece(t1, j)
        == snapshot_piece(t2, j) by {}
    lemma_prefix_cancel(t1, t2, 47, 17);
}

/// The `fan0` member is written from `fan0` alone.
pub proof fn law_snapshot_member_fan0(t1: SnapshotText, t2: SnapshotText)
    requires
        t1.cpu_p_temp == t2.cpu_p_temp,
        t1.cpu_p_power == t2.cpu_p_power,
        t1.cpu_e_temp == t2.cpu_e_temp,
        t1.hotspot == t2.hotspot,
        t1.gpu_temp == t2.gpu_temp,
        t1.dram_temp == t2.dram_temp,
        t1.dram_power == t2.dram_power,
        t1.ssd_temp == t2.ssd_temp,
        t1.battery_temp == t2.battery_temp,
        t1.fan1 == t2.fan1,
        t1.total_power == t2.total_power,
        t1.cluster0 == t2.cluster0,
        t1.cluster1 == t2.cluster1,
        t1.adapter_v == t2.adapter_v,
        t1.adapter_i == t2.adapter_i,
        t1.charger_present == t2.charger_present,
        t1.backlight_w == t2.backlight_w,
        t1.ane_temp == t2.ane_temp,
        t1.grid_p == t2.grid_p,
        t1.grid_e == t2.grid_e,
        t1.grid_g == t2.grid_g,
        t1.rails == t2.rails,
        snapshot_object(t1) == snapshot_object(t2),
    ensures
        opt_text(opt_view(t1.fan0)) == opt_text(opt_view(t2.fan0)),
{
    lemma_snapshot_prefix(t1);
    lemma_snapshot_prefix(t2);
    assert forall|j: int| 0 <= j < 47 && j != 19 implies #[trigger] snapshot_piece(t1, j)
        == snapshot_piece(t2, j) by {}
    lemma_prefix_cancel(t1, t2, 47, 19);
}

/// The `fan1` member is written from `fan1` alone.
pub proof fn law_snapshot_member_fan1(t1: SnapshotText, t2: SnapshotText)
    requires
        t1.cpu_p_temp == t2.cpu_p_temp,
        t1.cpu_p_power == t2.cpu_p_power,
        t1.cpu_e_temp == t2.cpu_e_temp,
        t1.hotspot == t2.hotspot,
        t1.gpu_temp == t2.gpu_temp,
        t1.dram_temp == t2.dram_temp,
        t1.dram_power == t2.dram_power,
        t1.ssd_temp == t2.ssd_temp,
        t1.battery_temp == t2.battery_temp,
        t1.fan0 == t2.fan0,
        t1.total_power == t2.total_power,
        t1.cluster0 == t2.cluster0,
        t1.cluster1 == t2.cluster1,
        t1.adapter_v == t2.adapter_v,
        t1.adapter_i == t2.adapter_i,
        t1.charger_present == t2.charger_present,
        t1.backlight_w == t2.backlight_w,
        t1.ane_temp == t2.ane_temp,
        t1.grid_p == t2.grid_p,
        t1.grid_e == t2.grid_e,
        t1.grid_g == t2.grid_g,
        t1.rails == t2.rails,
        snapshot_object(t1) == snapshot_object(t2),
    ensures
        opt_text(opt_view(t1.fan1)) == opt_text(opt_view(t2.fan1)),
{
    lemma_snapshot_prefix(t1);
    lemma_snapshot_prefix(t2);
    assert forall|j: int| 0 <= j < 47 && j != 21 implies #[trigger] snapshot_piece(t1, j)
        == snapshot_piece(t2, j) by {}
    lemma_prefix_cancel(t1, t2, 47, 21);
}

/// The `total_power` member is written from `total_power` alone.
pub proof fn law_snapshot_member_total_power(t1: SnapshotText, t2: SnapshotText)
    requires
        t1.cpu_p_temp == t2.cpu_p_temp,
        t1.cpu_p_power == t2.cpu_p_power,
        t1.cpu_e_temp == t2.cpu_e_temp,
        t1.hotspot == t2.hotspot,
        t1.gpu_temp == t2.gpu_temp,
        t1.dram_temp == t2.dram_temp,
        t1.dram_power == t2.dram_power,
        t1.ssd_temp == t2.ssd_temp,
        t1.battery_temp == t2.battery_temp,
        t1.fan0 == t2.fan0,
        t1.fan1 == t2.fan1,
        t1.cluster0 == t2.cluster0,
        t1.cluster1 == t2.cluster1,
        t1.adapter_v == t2.adapter_v,
        t1.adapter_i == t2.adapter_i,
        t1.charger_present == t2.charger_present,
        t1.backlight_w == t2.backlight_w,
        t1.ane_temp == t2.ane_temp,
        t1.grid_p == t2.grid_p,
        t1.grid_e == t2.grid_e,
        t1.grid_g == t2.grid_g,
        t1.rails == t2.rails,
        snapshot_object(t1) == snapshot_object(t2),
    ensures
        opt_text(opt_view(t1.total_power)) == opt_text(opt_view(t2.total_power)),
{
    lemma_snapshot_prefix(t1);
    lemma_snapshot_prefix(t2);
    assert forall|j: int| 0 <= j < 47 && j != 23 implies #[trigger] snapshot_piece(t1, j)
        == snapshot_piece(t2, j) by {}
    lemma_prefix_cancel(t1, t2, 47, 23);
}

/// The `cluster0` member is written from `cluster0` alone.
pub proof fn law_snapshot_member_cluster0(t1: SnapshotText, t2: SnapshotText)
    requires
        t1.cpu_p_temp == t2.cpu_p_temp,
        t1.cpu_p_power == t2.cpu_p_power,
        t1.cpu_e_temp == t2.cpu_e_temp,
        t1.hotspot == t2.hotspot,
        t1.gpu_temp == t2.gpu_temp,
        t1.dram_temp == t2.dram_temp,
        t1.dram_power == t2.dram_power,
        t1.ssd_temp == t2.ssd_temp,
        t1.battery_temp == t2.battery_temp,
        t1.fan0 == t2.fan0,
        t1.fan1 == t2.fan1,
        t1.total_power == t2.total_power,
        t1.cluster1 == t2.cluster1,
        t1.adapter_v == t2.adapter_v,
        t1.adapter_i == t2.adapter_i,
        t1.charger_present == t2.charger_present,
        t1.backlight_w == t2.backlight_w,
        t1.ane_temp == t2.ane_temp,
        t1.grid_p == t2.grid_p,
        t1.grid_e == t2.grid_e,
        t1.grid_g == t2.grid_g,
        t1.rails == t2.rails,
        snapshot_object(t1) == snapshot_object(t2),
    ensures
        opt_text(opt_view(t1.cluster0)) == opt_text(opt_view(t2.cluster0)),
{
    lemma_snapshot_prefix(t1);
    lemma_snapshot_prefix(t2);
    assert forall|j: int| 0 <= j < 47 && j != 25 implies #[trigger] snapshot_piece(t1, j)
        == snapshot_piece(t2, j) by {}
    lemma_prefix_cancel(t1, t2, 47, 25);
}

/// The `cluster1` member is written from `cluster1` alone.
pub proof fn law_snapshot_member_cluster1(t1: SnapshotText, t2: SnapshotText)
    requires
        t1.cpu_p_temp == t2.cpu_p_temp,
        t1.cpu_p_power == t2.cpu_p_power,
        t1.cpu_e_temp == t2.cpu_e_temp,
        t1.hotspot == t2.hotspot,
        t1.gpu_temp == t2.gpu_temp,
        t1.dram_temp == t2.dram_temp,
        t1.dram_power == t2.dram_power,
        t1.ssd_temp == t2.ssd_temp,
        t1.battery_temp == t2.battery_temp,
        t1.fan0 == t2.fan0,
        t1.fan1 == t2.fan1,
        t1.total_power == t2.total_power,
        t1.cluster0 == t2.cluster0,
        t1.adapter_v == t2.adapter_v,
        t1.adapter_i == t2.adapter_i,
        t1.charger_present == t2.charger_present,
        t1.backlight_w == t2.backlight_w,
        t1.ane_temp == t2.ane_temp,
        t1.grid_p == t2.grid_p,
        t1.grid_e == t2.grid_e,
        t1.grid_g == t2.grid_g,
        t1.rails == t2.rails,
        snapshot_object(t1) == snapshot_object(t2),
    ensures
        opt_text(opt_view(t1.cluster1)) == opt_text(opt_view(t2.cluster1)),
{
    lemma_snapshot_prefix(t1);
    lemma_snapshot_prefix(t2);
    assert forall|j: int| 0 <= j < 47 && j != 27 implies #[trigger] snapshot_piece(t1, j)
        == snapshot_piece(t2, j) by {}
    lemma_prefix_cancel(t1, t2, 47, 27);
}

/// The `adapter_v` member is written from `adapter_v` alone.
pub proof fn law_snapshot_member_adapter_v(t1: SnapshotText, t2: SnapshotText)
    requires
        t1.cpu_p_temp == t2.cpu_p_temp,
        t1.cpu_p_power == t2.cpu_p_power,
        t1.cpu_e_temp == t2.cpu_e_temp,
        t1.hotspot == t2.hotspot,
        t1.gpu_temp == t2.gpu_temp,
        t1.dram_temp == t2.dram_temp,
        t1.dram_power == t2.dram_power,
        t1.ssd_temp == t2.ssd_temp,
        t1.battery_temp == t2.battery_temp,
        t1.fan0 == t2.fan0,
        t1.fan1 == t2.fan1,
        t1.total_power == t2.total_power,
        t1.cluster0 == t2.cluster0,
        t1.cluster1 == t2.cluster1,
        t1.adapter_i == t2.adapter_i,
        t1.charger_present == t2.charger_present,
        t1.backlight_w == t2.backlight_w,
        t1.ane_temp == t2.ane_temp,
        t1.grid_p == t2.grid_p,
        t1.grid_e == t2.grid_e,
        t1.grid_g == t2.grid_g,
        t1.rails == t2.rails,
        snapshot_object(t1) == snapshot_object(t2),
    ensures
        opt_text(opt_view(t1.adapter_v)) == opt_text(opt_view(t2.adapter_v)),
{
    lemma_snapshot_prefix(t1);
    lemma_snapshot_prefix(t2);
    assert forall|j: int| 0 <= j < 47 && j != 29 implies #[trigger] snapshot_piece(t1, j)
        == snapshot_piece(t2, j) by {}
    lemma_prefix_cancel(t1, t2, 47, 29);
}

/// The `adapter_i` member is written from `adapter_i` alone.
pub proof fn law_snapshot_member_adapter_i(t1: SnapshotText, t2: SnapshotText)
    requires
        t1.cpu_p_temp == t2.cpu_p_temp,
        t1.cpu_p_power == t2.cpu_p_power,
        t1.cpu_e_temp == t2.cpu_e_temp,
        t1.hotspot == t2.hotspot,
        t1.gpu_temp == t2.gpu_temp,
        t1.dram_temp == t2.dram_temp,
        t1.dram_power == t2.dram_power,
        t1.ssd_temp == t2.ssd_temp,
        t1.battery_temp == t2.battery_temp,
        t1.fan0 == t2.fan0,
        t1.fan1 == t2.fan1,
        t1.total_power == t2.total_power,
        t1.cluster0 == t2.cluster0,
        t1.cluster1 == t2.cluster1,
        t1.adapter_v == t2.adapter_v,
        t1.charger_present == t2.charger_present,
        t1.backlight_w == t2.backlight_w,
        t1.ane_temp == t2.ane_temp,
        t1.grid_p == t2.grid_p,
        t1.grid_e == t2.grid_e,
        t1.grid_g == t2.grid_g,
        t1.rails == t2.rails,
        snapshot_object(t1) == snapshot_object(t2),
    ensures
        opt_text(opt_view(t1.adapter_i)) == opt_text(opt_view(t2.adapter_i)),
{
    lemma_snapshot_prefix(t1);
    lemma_snapshot_prefix(t2);
    assert forall|j: int| 0 <= j < 47 && j != 31 implies #[trigger] snapshot_piece(t1, j)
        == snapshot_piece(t2, j) by {}
    lemma_prefix_cancel(t1, t2, 47, 31);
}

/// The `charger_present` member is written from `charger_present` alone.
pub proof fn law_snapshot_member_charger_present(t1: SnapshotText, t2: SnapshotText)
    requires
        t1.cpu_p_temp == t2.cpu_p_temp,
        t1.cpu_p_power == t2.cpu_p_power,
        t1.cpu_e_temp == t2.cpu_e_temp,
        t1.hotspot == t2.hotspot,
        t1.gpu_temp == t2.gpu_temp,
        t1.dram_temp == t2.dram_temp,
        t1.dram_power == t2.dram_power,
        t1.ssd_temp == t2.ssd_temp,
        t1.battery_temp == t2.battery_temp,
        t1.fan0 == t2.fan0,
        t1.fan1 == t2.fan1,
        t1.total_power == t2.total_power,
        t1.cluster0 == t2.cluster0,
        t1.cluster1 == t2.cluster1,
        t1.adapter_v == t2.adapter_v,
        t1.adapter_i == t2.adapter_i,
        t1.backlight_w == t2.backlight_w,
        t1.ane_temp == t2.ane_temp,
        t1.grid_p == t2.grid_p,
        t1.grid_e == t2.grid_e,
        t1.grid_g == t2.grid_g,
        t1.rails == t2.rails,
        snapshot_object(t1) == snapshot_object(t2),
    ensures
        bool_text(t1.charger_present) == bool_text(t2.charger_present),
{
    lemma_snapshot_prefix(t1);
    lemma_snapshot_prefix(t2);
    assert forall|j: int| 0 <= j < 47 && j != 33 implies #[trigger] snapshot_piece(t1, j)
        == snapshot_piece(t2, j) by {}
    lemma_prefix_cancel(t1, t2, 47, 33);
}

/// The `backlight_w` member is written from `backlight_w` alone.
pub proof fn law_snapshot_member_backlight_w(t1: SnapshotText, t2: SnapshotText)
    requires
        t1.cpu_p_temp == t2.cpu_p_temp,
        t1.cpu_p_power == t2.cpu_p_power,
        t1.cpu_e_temp == t2.cpu_e_temp,
        t1.hotspot == t2.hotspot,
        t1.gpu_temp == t2.gpu_temp,
        t1.dram_temp == t2.dram_temp,
        t1.dram_power == t2.dram_power,
        t1.ssd_temp == t2.ssd_temp,
        t1.battery_temp == t2.battery_temp,
        t1.fan0 == t2.fan0,
        t1.fan1 == t2.fan1,
        t1.total_power == t2.total_power,
        t1.cluster0 == t2.cluster0,
        t1.cluster1 == t2.cluster1,
        t1.adapter_v == t2.adapter_v,
        t1.adapter_i == t2.adapter_i,
        t1.charger_present == t2.charger_present,
        t1.ane_temp == t2.ane_temp,
        t1.grid_p == t2.grid_p,
        t1.grid_e == t2.grid_e,
        t1.grid_g == t2.grid_g,
        t1.rails == t2.rails,
        snapshot_object(t1) == snapshot_object(t2),
    ensures
        opt_text(opt_view(t1.backlight_w)) == opt_text(opt_view(t2.backlight_w)),
{
    lemma_snapshot_prefix(t1);
    lemma_snapshot_prefix(t2);
    assert forall|j: int| 0 <= j < 47 && j != 35 implies #[trigger] snapshot_piece(t1, j)
        == snapshot_piece(t2, j) by {}
    lemma_prefix_cancel(t1, t2, 47, 35);
}

/// The `ane_temp` member is written from `ane_temp` alone.
pub proof fn law_snapshot_member_ane_temp(t1: SnapshotText, t2: SnapshotText)
    requires
        t1.cpu_p_temp == t2.cpu_p_temp,
        t1.cpu_p_power == t2.cpu_p_power,
        t1.cpu_e_temp == t2.cpu_e_temp,
        t1.hotspot == t2.hotspot,
        t1.gpu_temp == t2.gpu_temp,
        t1.dram_temp == t2.dram_temp,
        t1.dram_power == t2.dram_power,
        t1.ssd_temp == t2.ssd_temp,
        t1.battery_temp == t2.battery_temp,
        t1.fan0 == t2.fan0,
        t1.fan1 == t2.fan1,
        t1.total_power == t2.total_power,
        t1.cluster0 == t2.cluster0,
        t1.cluster1 == t2.cluster1,
        t1.adapter_v == t2.adapter_v,
        t1.adapter_i == t2.adapter_i,
        t1.charger_present == t2.charger_present,
        t1.backlight_w == t2.backlight_w,
        t1.grid_p == t2.grid_p,
        t1.grid_e == t2.grid_e,
        t1.grid_g == t2.grid_g,
        t1.rails == t2.rails,
        snapshot_object(t1) == snapshot_object(t2),
    ensures
        opt_text(opt_view(t1.ane_temp)) == opt_text(opt_view(t2.ane_temp)),
{
    lemma_snapshot_prefix(t1);
    lemma_snapshot_prefix(t2);
    assert forall|j: int| 0 <= j < 47 && j != 37 implies #[trigger] snapshot_piece(t1, j)
        == snapshot_piece(t2, j) by {}
    lemma_prefix_cancel(t1, t2, 47, 37);
}

/// The `grid_p` member is written from `grid_p` alone.
pub proof fn law_snapshot_member_grid_p(t1: SnapshotText, t2: SnapshotText)
    requires
        t1.cpu_p_temp == t2.cpu_p_temp,
        t1.cpu_p_power == t2.cpu_p_power,
        t1.cpu_e_temp == t2.cpu_e_temp,
        t1.hotspot == t2.hotspot,
        t1.gpu_temp == t2.gpu_temp,
        t1.dram_temp == t2.dram_temp,
        t1.dram_power == t2.dram_power,
        t1.ssd_temp == t2.ssd_temp,
        t1.battery_temp == t2.battery_temp,
        t1.fan0 == t2.fan0,
        t1.fan1 == t2.fan1,
        t1.total_power == t2.total_power,
        t1.cluster0 == t2.cluster0,
        t1.cluster1 == t2.cluster1,
        t1.adapter_v == t2.adapter_v,
        t1.adapter_i == t2.adapter_i,
        t1.charger_present == t2.charger_present,
        t1.backlight_w == t2.backlight_w,
        t1.ane_temp == t2.ane_temp,
        t1.grid_e == t2.grid_e,
        t1.grid_g == t2.grid_g,
        t1.rails == t2.rails,
        snapshot_object(t1) == snapshot_object(t2),
    ensures
        t1.grid_p@ == t2.grid_p@,
{
    lemma_snapshot_prefix(t1);
    lemma_snapshot_prefix(t2);
    assert forall|j: int| 0 <= j < 47 && j != 39 implies #[trigger] snapshot_piece(t1, j)
        == snapshot_piece(t2, j) by {}
    lemma_prefix_cancel(t1, t2, 47, 39);
}

/// The `grid_e` member is written from `grid_e` alone.
pub proof fn law_snapshot_member_grid_e(t1: SnapshotText, t2: SnapshotText)
    requires
        t1.cpu_p_temp == t2.cpu_p_temp,
        t1.cpu_p_power == t2.cpu_p_power,
        t1.cpu_e_temp == t2.cpu_e_temp,
        t1.hotspot == t2.hotspot,
        t1.gpu_temp == t2.gpu_temp,
        t1.dram_temp == t2.dram_temp,
        t1.dram_power == t2.dram_power,
        t1.ssd_temp == t2.ssd_temp,
        t1.battery_temp == t2.battery_temp,
        t1.fan0 == t2.fan0,
        t1.fan1 == t2.fan1,
        t1.total_power == t2.total_power,
        t1.cluster0 == t2.cluster0,
        t1.cluster1 == t2.cluster1,
        t1.adapter_v == t2.adapter_v,
        t1.adapter_i == t2.adapter_i,
        t1.charger_present == t2.charger_present,
        t1.backlight_w == t2.backlight_w,
        t1.ane_temp == t2.ane_temp,
        t1.grid_p == t2.grid_p,
        t1.grid_g == t2.grid_g,
        t1.rails == t2.rails,
        snapshot_object(t1) == snapshot_object(t2),
    ensures
        t1.grid_e@ == t2.grid_e@,
{
    lemma_snapshot_prefix(t1);
    lemma_snapshot_prefix(t2);
    assert forall|j: int| 0 <= j < 47 && j != 41 implies #[trigger] snapshot_piece(t1, j)
        == snapshot_piece(t2, j) by {}
    lemma_prefix_cancel(t1, t2, 47, 41);
}

/// The `grid_g` member is written from `grid_g` alone.
pub proof fn law_snapshot_member_grid_g(t1: SnapshotText, t2: SnapshotText)
    requires
        t1.cpu_p_temp == t2.cpu_p_temp,
        t1.cpu_p_power == t2.cpu_p_power,
        t1.cpu_e_temp == t2.cpu_e_temp,
        t1.hotspot == t2.hotspot,
        t1.gpu_temp == t2.gpu_temp,
        t1.dram_temp == t2.dram_temp,
        t1.dram_power == t2.dram_power,
        t1.ssd_temp == t2.ssd_temp,
        t1.battery_temp == t2.battery_temp,
        t1.fan0 == t2.fan0,
        t1.fan1 == t2.fan1,
        t1.total_power == t2.total_power,
        t1.cluster0 == t2.cluster0,
        t1.cluster1 == t2.cluster1,
        t1.adapter_v == t2.adapter_v,
        t1.adapter_i == t2.adapter_i,
        t1.charger_present == t2.charger_present,
        t1.backlight_w == t2.backlight_w,
        t1.ane_temp == t2.ane_temp,
        t1.grid_p == t2.grid_p,
        t1.grid_e == t2.grid_e,
        t1.rails == t2.rails,
        snapshot_object(t1) == snapshot_object(t2),
    ensures
        t1.grid_g@ == t2.grid_g@,
{
    lemma_snapshot_prefix(t1);
    lemma_snapshot_prefix(t2);
    assert forall|j: int| 0 <= j < 47 && j != 43 implies #[trigger] snapshot_piece(t1, j)
        == snapshot_piece(t2, j) by {}
    lemma_prefix_cancel(t1, t2, 47, 43);
}

/// The `rails` member is written from `rails` alone.
pub proof fn law_snapshot_member_rails(t1: SnapshotText, t2: SnapshotText)
    requires
        t1.cpu_p_temp == t2.cpu_p_temp,
        t1.cpu_p_power == t2.cpu_p_power,
        t1.cpu_e_temp == t2.cpu_e_temp,
        t1.hotspot == t2.hotspot,
        t1.gpu_temp == t2.gpu_temp,
        t1.dram_temp == t2.dram_temp,
        t1.dram_power == t2.dram_power,
        t1.ssd_temp == t2.ssd_temp,
        t1.battery_temp == t2.battery_temp,
        t1.fan0 == t2.fan0,
        t1.fan1 == t2.fan1,
        t1.total_power == t2.total_power,
        t1.cluster0 == t2.cluster0,
        t1.cluster1 == t2.cluster1,
        t1.adapter_v == t2.adapter_v,
        t1.adapter_i == t2.adapter_i,
        t1.charger_present == t2.charger_present,
        t1.backlight_w == t2.backlight_w,
        t1.ane_temp == t2.ane_temp,
        t1.grid_p == t2.grid_p,
        t1.grid_e == t2.grid_e,
        t1.grid_g == t2.grid_g,
        snapshot_object(t1) == snapshot_object(t2),
    ensures
        t1.rails@ == t2.rails@,
{
    lemma_snapshot_prefix(t1);
    lemma_snapshot_prefix(t2);
    assert forall|j: int| 0 <= j < 47 && j != 45 implies #[trigger] snapshot_piece(t1, j)
        == snapshot_piece(t2, j) by {}
    lemma_prefix_cancel(t1, t2, 47, 45);
}

/// The pieces in order, joined.
pub open spec fn concat(ps: Seq<Seq<char>>) -> Seq<char>
    decreases ps.len(),
{
    if ps.len() == 0 {
        seq![]
    } else {
        concat(ps.drop_last()) + ps.last()
    }
}

/// Joined pieces that agree everywhere but at `k` and join to the same text
/// agree at `k` too.
proof fn lemma_concat_cancel(ps1: Seq<Seq<char>>, ps2: Seq<Seq<char>>, k: int)
    requires
        ps1.len() == ps2.len(),
        0 <= k < ps1.len(),
        forall|i: int| 0 <= i < ps1.len() && i != k ==> ps1[i] == ps2[i],
        concat(ps1) == concat(ps2),
    ensures
        ps1[k] == ps2[k],
    decreases ps1.len(),
{
    let n = ps1.len() - 1;
    if k == n {
        assert(ps1.drop_last() =~= ps2.drop_last());
        lemma_cancel_left(concat(ps1.drop_last()), ps1.last(), ps2.last());
    } else {
        assert(ps1[n] == ps2[n]);
        lemma_cancel_right(concat(ps1.drop_last()), concat(ps2.drop_last()), ps1.last());
        lemma_concat_cancel(ps1.drop_last(), ps2.drop_last(), k);
    }
}

/// The `key` of a rail element is written from the rail's `key` alone.
pub proof fn law_rail_element_key(r1: RailText, r2: RailText)
    requires
        r1.v == r2.v,
        r1.i == r2.i,
        r1.p == r2.p,
        rail_element(r1) == rail_element(r2),
    ensures
        r1.key@ == r2.key@,
{
    let ps1 = seq!["{\"k\":\""@, r1.key@, "\",\"v\":"@, opt_text(opt_view(r1.v)), ",\"i\":"@, opt_text(opt_view(r1.i)), ",\"p\":"@, r1.p@, "}"@];
    let ps2 = seq!["{\"k\":\""@, r2.key@, "\",\"v\":"@, opt_text(opt_view(r2.v)), ",\"i\":"@, opt_text(opt_view(r2.i)), ",\"p\":"@, r2.p@, "}"@];
    reveal_with_fuel(concat, 10);
    assert(concat(ps1) =~= rail_element(r1));
    assert(concat(ps2) =~= rail_element(r2));
    lemma_concat_cancel(ps1, ps2, 1);
}

/// The `v` of a rail element is written from the rail's `v` alone.
pub proof fn law_rail_element_v(r1: RailText, r2: RailText)
    requires
        r1.key == r2.key,
        r1.i == r2.i,
        r1.p == r2.p,
        rail_element(r1) == rail_element(r2),
    ensures
        opt_text(opt_view(r1.v)) == opt_text(opt_view(r2.v)),
{
    let ps1 = seq!["{\"k\":\""@, r1.key@, "\",\"v\":"@, opt_text(opt_view(r1.v)), ",\"i\":"@, opt_text(opt_view(r1.i)), ",\"p\":"@, r1.p@, "}"@];
    let ps2 = seq!["{\"k\":\""@, r2.key@, "\",\"v\":"@, opt_text(opt_view(r2.v)), ",\"i\":"@, opt_text(opt_view(r2.i)), ",\"p\":"@, r2.p@, "}"@];
    reveal_with_fuel(concat, 10);
    assert(concat(ps1) =~= rail_element(r1));
    assert(concat(ps2) =~= rail_element(r2));
    lemma_concat_cancel(ps1, ps2, 3);
}

/// The `i` of a rail element is written from the rail's `i` alone.
pub proof fn law_rail_element_i(r1: RailText, r2: RailText)
    requires
        r1.key == r2.key,
        r1.v == r2.v,
        r1.p == r2.p,
        rail_element(r1) == rail_element(r2),
    ensures
        opt_text(opt_view(r1.i)) == opt_text(opt_view(r2.i)),
{
    let ps1 = seq!["{\"k\":\""@, r1.key@, "\",\"v\":"@, opt_text(opt_view(r1.v)), ",\"i\":"@, opt_text(opt_view(r1.i)), ",\"p\":"@, r1.p@, "}"@];
    let ps2 = seq!["{\"k\":\""@, r2.key@, "\",\"v\":"@, opt_text(opt_view(r2.v)), ",\"i\":"@, opt_text(opt_view(r2.i)), ",\"p\":"@, r2.p@, "}"@];
    reveal_with_fuel(concat, 10);
    assert(concat(ps1) =~= rail_element(r1));
    assert(concat(ps2) =~= rail_element(r2));
    lemma_concat_cancel(ps1, ps2, 5);
}

/// The `p` of a rail element is written from the rail's `p` alone.
pub proof fn law_rail_element_p(r1: RailText, r2: RailText)
    requires
        r1.key == r2.key,
        r1.v == r2.v,
        r1.i == r2.i,
        rail_element(r1) == rail_element(r2),
    ensures
        r1.p@ == r2.p@,
{
    let ps1 = seq!["{\"k\":\""@, r1.key@, "\",\"v\":"@, opt_text(opt_view(r1.v)), ",\"i\":"@, opt_text(opt_view(r1.i)), ",\"p\":"@, r1.p@, "}"@];
    let ps2 = seq!["{\"k\":\""@, r2.key@, "\",\"v\":"@, opt_text(opt_view(r2.v)), ",\"i\":"@, opt_text(opt_view(r2.i)), ",\"p\":"@, r2.p@, "}"@];
    reveal_with_fuel(concat, 10);
    assert(concat(ps1) =~= rail_element(r1));
    assert(concat(ps2) =~= rail_element(r2));
    lemma_concat_cancel(ps1, ps2, 7);
}

/// A grid cell is written from its key and its value: with the same value, the
/// same text means the same key, and with the same key, the same value.
pub proof fn law_cell_element_parts(k1: Seq<char>, v1: Seq<char>, k2: Seq<char>, v2: Seq<char>)
    requires
        cell_element(k1, v1) == cell_element(k2, v2),
    ensures
        v1 == v2 ==> k1 == k2,
        k1 == k2 ==> v1 == v2,
{
    let ps1 = seq!["{\"k\":\""@, k1, "\",\"v\":"@, v1, "}"@];
    let ps2 = seq!["{\"k\":\""@, k2, "\",\"v\":"@, v2, "}"@];
    reveal_with_fuel(concat, 6);
    assert(concat(ps1) =~= cell_element(k1, v1));
    assert(concat(ps2) =~= cell_element(k2, v2));
    if v1 == v2 {
        lemma_concat_cancel(ps1, ps2, 1);
    }
    if k1 == k2 {
        lemma_concat_cancel(ps1, ps2, 3);
    }
}

/// A schema member is written from its key and its value: with the same value, the
/// same text means the same key, and with the same key, the same value.
pub proof fn law_schema_member_parts(k1: Seq<char>, v1: Seq<char>, k2: Seq<char>, v2: Seq<char>)
    requires
        schema_member(k1, v1) == schema_member(k2, v2),
    ensures
        v1 == v2 ==> k1 == k2,
        k1 == k2 ==> v1 == v2,
{
    let ps1 = seq!["\""@, k1, "\":\""@, v1, "\""@];
    let ps2 = seq!["\""@, k2, "\":\""@, v2, "\""@];
    reveal_with_fuel(concat, 6);
    assert(concat(ps1) =~= schema_member(k1, v1));
    assert(concat(ps2) =~= schema_member(k2, v2));
    if v1 == v2 {
        lemma_concat_cancel(ps1, ps2, 1);
    }
    if k1 == k2 {
        lemma_concat_cancel(ps1, ps2, 3);
    }
}

/// A values member is written from its key and its value: with the same value, the
/// same text means the same key, and with the same key, the same value.
pub proof fn law_value_member_parts(k1: Seq<char>, v1: Seq<char>, k2: Seq<char>, v2: Seq<char>)
    requires
        value_member(k1, v1) == value_member(k2, v2),
    ensures
        v1 == v2 ==> k1 == k2,
        k1 == k2 ==> v1 == v2,
{
    let ps1 = seq!["\""@, k1, "\":"@, v1];
    let ps2 = seq!["\""@, k2, "\":"@, v2];
    reveal_with_fuel(concat, 5);
    assert(concat(ps1) =~= value_member(k1, v1));
    assert(concat(ps2) =~= value_member(k2, v2));
    if v1 == v2 {
        lemma_concat_cancel(ps1, ps2, 1);
    }
    if k1 == k2 {
        lemma_concat_cancel(ps1, ps2, 3);
    }
}

} // verus!
