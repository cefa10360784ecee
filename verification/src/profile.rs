//! The semantic map: which raw sensor keys correspond to which logical
//! subsystem, as data keyed by machine model.
//!
//! A profile is plain text in the `field: key key key` format. Blank lines and
//! lines starting with `#` are comments; a line without `:` is ignored; when a
//! field is given twice, the later line wins.
use vstd::prelude::*;

use crate::text::{
    is_ws, lemma_find_char_at, lemma_trim_end_after, lemma_trim_no_ws, lemma_words_trim_end,
    trim_end, trim_start, chars_of, find_char, find_in, locates, newline_pieces, newline_ranges, pieces_from,
    ranges_match, str_eq, string_from, trim, trim_range, words, words_in,
};

verus! {

/// One `field: key key key` line: the field name and its keys.
pub type EntryView = (Seq<char>, Seq<Seq<char>>);

/// What one line of a profile contributes, if anything.
pub open spec fn line_entry(line: Seq<char>) -> Option<EntryView> {
    let t = trim(line);
    if t.len() == 0 || t[0] == '#' {
        None
    } else {
        match find_char(t, ':') {
            Some(i) => Some((trim(t.take(i)), words(t.skip(i + 1)))),
            None => None,
        }
    }
}

/// The entries of a sequence of lines, in order.
pub open spec fn entries_of(lines: Seq<Seq<char>>) -> Seq<EntryView>
    decreases lines.len(),
{
    if lines.len() == 0 {
        seq![]
    } else {
        let rest = entries_of(lines.drop_last());
        match line_entry(lines.last()) {
            Some(e) => rest.push(e),
            None => rest,
        }
    }
}

/// The entries of a profile text.
pub open spec fn text_entries(text: Seq<char>) -> Seq<EntryView> {
    entries_of(newline_pieces(text))
}

/// The keys of the last entry for `name`, if there is one.
pub open spec fn lookup(es: Seq<EntryView>, name: Seq<char>) -> Option<Seq<Seq<char>>>
    decreases es.len(),
{
    if es.len() == 0 {
        None
    } else if es.last().0 == name {
        Some(es.last().1)
    } else {
        lookup(es.drop_last(), name)
    }
}

/// The keys a profile text gives for `name`; none when it does not name it.
pub open spec fn field_list(text: Seq<char>, name: Seq<char>) -> Seq<Seq<char>> {
    match lookup(text_entries(text), name) {
        Some(keys) => keys,
        None => seq![],
    }
}

/// The first key a profile text gives for `name`; empty when there is none.
pub open spec fn field_one(text: Seq<char>, name: Seq<char>) -> Seq<char> {
    let keys = field_list(text, name);
    if keys.len() > 0 {
        keys[0]
    } else {
        seq![]
    }
}

/// Maps a machine's raw sensor keys onto logical subsystems.
pub struct Profile {
    pub model: String,
    pub cpu_p_temp: Vec<String>,
    pub cpu_e_temp: Vec<String>,
    pub gpu_temp: Vec<String>,
    pub hotspot: Vec<String>,
    pub dram_temp: Vec<String>,
    pub dram_power: String,
    pub ssd_temp: Vec<String>,
    pub battery_temp: Vec<String>,
    pub fans: Vec<String>,
    pub system_power: String,
    pub cpu_clusters: Vec<String>,
    pub rails: Vec<String>,
    pub adapter_voltage: Vec<String>,
    pub adapter_current: Vec<String>,
    pub backlight_power: String,
    pub backlight_current: String,
    pub ane_temp: Vec<String>,
}

/// A profile as plain sequences of characters.
pub struct ProfileView {
    pub model: Seq<char>,
    pub cpu_p_temp: Seq<Seq<char>>,
    pub cpu_e_temp: Seq<Seq<char>>,
    pub gpu_temp: Seq<Seq<char>>,
    pub hotspot: Seq<Seq<char>>,
    pub dram_temp: Seq<Seq<char>>,
    pub dram_power: Seq<char>,
    pub ssd_temp: Seq<Seq<char>>,
    pub battery_temp: Seq<Seq<char>>,
    pub fans: Seq<Seq<char>>,
    pub system_power: Seq<char>,
    pub cpu_clusters: Seq<Seq<char>>,
    pub rails: Seq<Seq<char>>,
    pub adapter_voltage: Seq<Seq<char>>,
    pub adapter_current: Seq<Seq<char>>,
    pub backlight_power: Seq<char>,
    pub backlight_current: Seq<char>,
    pub ane_temp: Seq<Seq<char>>,
}

impl View for Profile {
    type V = ProfileView;

    open spec fn view(&self) -> ProfileView {
        ProfileView {
            model: self.model@,
            cpu_p_temp: self.cpu_p_temp.deep_view(),
            cpu_e_temp: self.cpu_e_temp.deep_view(),
            gpu_temp: self.gpu_temp.deep_view(),
            hotspot: self.hotspot.deep_view(),
            dram_temp: self.dram_temp.deep_view(),
            dram_power: self.dram_power@,
            ssd_temp: self.ssd_temp.deep_view(),
            battery_temp: self.battery_temp.deep_view(),
            fans: self.fans.deep_view(),
            system_power: self.system_power@,
            cpu_clusters: self.cpu_clusters.deep_view(),
            rails: self.rails.deep_view(),
            adapter_voltage: self.adapter_voltage.deep_view(),
            adapter_current: self.adapter_current.deep_view(),
            backlight_power: self.backlight_power@,
            backlight_current: self.backlight_current@,
            ane_temp: self.ane_temp.deep_view(),
        }
    }
}

/// The profile a text describes.
pub open spec fn parsed(text: Seq<char>) -> ProfileView {
    ProfileView {
        model: field_one(text, "model"@),
        cpu_p_temp: field_list(text, "cpu_p_temp"@),
        cpu_e_temp: field_list(text, "cpu_e_temp"@),
        gpu_temp: field_list(text, "gpu_temp"@),
        hotspot: field_list(text, "hotspot"@),
        dram_temp: field_list(text, "dram_temp"@),
        dram_power: field_one(text, "dram_power"@),
        ssd_temp: field_list(text, "ssd_temp"@),
        battery_temp: field_list(text, "battery_temp"@),
        fans: field_list(text, "fans"@),
        system_power: field_one(text, "system_power"@),
        cpu_clusters: field_list(text, "cpu_clusters"@),
        rails: field_list(text, "rails"@),
        adapter_voltage: field_list(text, "adapter_voltage"@),
        adapter_current: field_list(text, "adapter_current"@),
        backlight_power: field_one(text, "backlight_power"@),
        backlight_current: field_one(text, "backlight_current"@),
        ane_temp: field_list(text, "ane_temp"@),
    }
}

/// The entry of the line `cs[lo..hi]`, if it has one.
fn entry_at(cs: &Vec<char>, lo: usize, hi: usize) -> (r: Option<(String, Vec<String>)>)
    requires
        lo <= hi <= cs@.len(),
    ensures
        r.deep_view() == line_entry(cs@.subrange(lo as int, hi as int)),
{
    let ghost line = cs@.subrange(lo as int, hi as int);
    let (a, b) = trim_range(cs, lo, hi);
    let ghost t = cs@.subrange(a as int, b as int);
    if a == b {
        return None;
    }
    assert(t[0] == cs@[a as int]);
    if cs[a] == '#' {
        return None;
    }
    match find_in(cs, a, b, ':') {
        Some(j) => {
            let (ka, kb) = trim_range(cs, a, j);
            let key = string_from(cs, ka, kb);
            let keys = words_in(cs, j + 1, b);
            assert(t.take(j - a) =~= cs@.subrange(a as int, j as int));
            assert(t.skip(j - a + 1) =~= cs@.subrange(j + 1, b as int));
            Some((key, keys))
        },
        None => None,
    }
}

/// Copies a list of keys.
fn copy_keys(v: &Vec<String>) -> (r: Vec<String>)
    ensures
        r.deep_view() == v.deep_view(),
{
    let mut r: Vec<String> = Vec::new();
    let mut i: usize = 0;
    while i < v.len()
        invariant
            i <= v@.len(),
            r@.len() == i,
            r.deep_view() == v.deep_view().take(i as int),
        decreases v@.len() - i,
    {
        let c = v[i].clone();
        assert(c@ == v@[i as int]@);
        let ghost before = r@;
        let ghost before_dv = r.deep_view();
        r.push(c);
        assert(r@ == before.push(c));
        i = i + 1;
        assert(r.deep_view() =~= v.deep_view().take(i as int)) by {
            assert forall|j: int| 0 <= j < i implies r.deep_view()[j] == v.deep_view()[j] by {
                if j < i - 1 {
                    assert(r@[j] == before[j]);
                    assert(before_dv[j] == before[j]@);
                    assert(before_dv[j] == v.deep_view().take(i - 1)[j]);
                }
            }
        }
    }
    assert(v.deep_view().take(i as int) =~= v.deep_view());
    r
}

/// The keys of the last entry named `name`.
fn find_field(es: &Vec<(String, Vec<String>)>, name: &str) -> (r: Option<usize>)
    ensures
        match r {
            Some(j) => j < es@.len() && lookup(es.deep_view(), name@) == Some(
                es.deep_view()[j as int].1,
            ),
            None => lookup(es.deep_view(), name@) is None,
        },
{
    let mut i = es.len();
    assert(es.deep_view().take(i as int) =~= es.deep_view());
    while i > 0
        invariant
            i <= es@.len(),
            lookup(es.deep_view(), name@) == lookup(es.deep_view().take(i as int), name@),
        decreases i,
    {
        let ghost pre = es.deep_view().take(i as int);
        assert(pre.last() == es.deep_view()[i - 1]);
        assert(pre.drop_last() =~= es.deep_view().take(i - 1));
        if str_eq(es[i - 1].0.as_str(), name) {
            return Some(i - 1);
        }
        i = i - 1;
    }
    None
}

/// The keys given for `name`; none when no line names it.
fn list(es: &Vec<(String, Vec<String>)>, name: &str) -> (r: Vec<String>)
    ensures
        r.deep_view() == (match lookup(es.deep_view(), name@) {
            Some(keys) => keys,
            None => seq![],
        }),
{
    match find_field(es, name) {
        Some(j) => copy_keys(&es[j].1),
        None => Vec::new(),
    }
}

/// The first key given for `name`; empty when there is none.
fn one(es: &Vec<(String, Vec<String>)>, name: &str) -> (r: String)
    ensures
        r@ == (match lookup(es.deep_view(), name@) {
            Some(keys) => if keys.len() > 0 {
                keys[0]
            } else {
                seq![]
            },
            None => seq![],
        }),
{
    match find_field(es, name) {
        Some(j) => if es[j].1.len() > 0 {
            es[j].1[0].clone()
        } else {
            String::new()
        },
        None => String::new(),
    }
}

impl Profile {
    /// Parses the `field: key key key` profile format.
    pub fn parse(text: &str) -> (p: Profile)
        ensures
            p@ == parsed(text@),
    {
        let cs = chars_of(text);
        let ranges = newline_ranges(&cs);
        let ghost lines = newline_pieces(cs@);
        let mut es: Vec<(String, Vec<String>)> = Vec::new();
        let mut i: usize = 0;
        while i < ranges.len()
            invariant
                cs@ == text@,
                lines == newline_pieces(cs@),
                ranges_match(cs@, ranges@, lines),
                i <= ranges@.len(),
                es.deep_view() == entries_of(lines.take(i as int)),
            decreases ranges@.len() - i,
        {
            let (lo, hi) = ranges[i];
            assert(locates(cs@, ranges@[i as int], lines[i as int]));
            let ghost before = es.deep_view();
            assert(lines.take(i + 1).drop_last() =~= lines.take(i as int));
            assert(lines.take(i + 1).last() == lines[i as int]);
            match entry_at(&cs, lo, hi) {
                Some(e) => {
                    es.push(e);
                    assert(es.deep_view() =~= before.push(es.deep_view().last()));
                },
                None => {},
            }
            i = i + 1;
        }
        assert(lines.take(i as int) =~= lines);
        Profile {
            model: one(&es, "model"),
            cpu_p_temp: list(&es, "cpu_p_temp"),
            cpu_e_temp: list(&es, "cpu_e_temp"),
            gpu_temp: list(&es, "gpu_temp"),
            hotspot: list(&es, "hotspot"),
            dram_temp: list(&es, "dram_temp"),
            dram_power: one(&es, "dram_power"),
            ssd_temp: list(&es, "ssd_temp"),
            battery_temp: list(&es, "battery_temp"),
            fans: list(&es, "fans"),
            system_power: one(&es, "system_power"),
            cpu_clusters: list(&es, "cpu_clusters"),
            rails: list(&es, "rails"),
            adapter_voltage: list(&es, "adapter_voltage"),
            adapter_current: list(&es, "adapter_current"),
            backlight_power: one(&es, "backlight_power"),
            backlight_current: one(&es, "backlight_current"),
            ane_temp: list(&es, "ane_temp"),
        }
    }
}

/// Partial sensor map of the Apple M3 Max (MacBook Pro, `Mac15,11`).
///
/// It maps the E-core temperatures, the die hotspot, DRAM temperature and
/// power, SSD temperature, and the display backlight. It holds no P-core,
/// GPU, battery, fan, system-power, cluster, adapter or rail keys: those
/// fields of the built-in profile are empty. A complete map is supplied as a
/// `profiles/Mac15,11.profile` file, which takes precedence.
pub const MAC15_11_PROFILE: &'static str = "# Apple M3 Max (MacBook Pro, Mac15,11)
# Labels are correlational: a key is listed where it responded specifically
# to the stimulus of one subsystem.
model: Mac15,11
cpu_e_temp: Te04 Te05 Te06 Te0K Te0L Te0M Te0P Te0Q Te0S Te0T
hotspot: TCMb TCMz
dram_temp: TRD0 TRD1 TRD3 TRD4 TRD8 TRDb
dram_power: PMVC
ssd_temp: TH0a TH0b TH0x
backlight_power: PDBR
backlight_current: IDBR
";

/// The machine models that ship with a built-in profile.
pub open spec fn bundled_names() -> Seq<Seq<char>> {
    seq!["Mac15,11"@]
}

/// The built-in profile text for `model`, if one ships.
pub open spec fn bundled_text(model: Seq<char>) -> Option<Seq<char>> {
    if model == "Mac15,11"@ {
        Some(MAC15_11_PROFILE@)
    } else {
        None
    }
}

/// The characters of a profile file's text, when there is one.
pub open spec fn disk_text(on_disk: Option<&str>) -> Option<Seq<char>> {
    match on_disk {
        Some(t) => Some(t@),
        None => None,
    }
}

/// The profile chosen for `model`: a profile file of its own when there is
/// one, else a built-in profile, else none.
pub open spec fn chosen_profile(model: Seq<char>, on_disk: Option<Seq<char>>) -> Option<ProfileView> {
    match on_disk {
        Some(text) => Some(parsed(text)),
        None => match bundled_text(model) {
            Some(text) => Some(parsed(text)),
            None => None,
        },
    }
}

impl Profile {
    /// Loads the profile for a machine model: the text of its
    /// `profiles/<model>.profile` file when the caller found one (lets new
    /// models ship without a recompile), otherwise a built-in profile.
    /// `None` if the model is unmapped.
    pub fn for_model(model: &str, on_disk: Option<&str>) -> (r: Option<Profile>)
        ensures
            r matches Some(p) ==> chosen_profile(model@, disk_text(on_disk)) == Some(p@),
            r is None <==> chosen_profile(model@, disk_text(on_disk)) is None,
    {
        match on_disk {
            Some(text) => Some(Profile::parse(text)),
            None => if str_eq(model, "Mac15,11") {
                Some(Profile::parse(MAC15_11_PROFILE))
            } else {
                None
            },
        }
    }

    /// Models this library ships a profile for.
    pub fn bundled_models() -> (r: Vec<&'static str>)
        ensures
            r@.map_values(|m: &str| m@) == bundled_names(),
    {
        let mut r: Vec<&'static str> = Vec::new();
        r.push("Mac15,11");
        assert(r@.map_values(|m: &str| m@) =~= bundled_names());
        r
    }
}

/// Every model listed as shipped has a built-in profile: without a profile
/// file of its own, it still loads.
pub proof fn law_bundled_models_load(i: int)
    requires
        0 <= i < bundled_names().len(),
    ensures
        chosen_profile(bundled_names()[i], None) is Some,
{
}

/// The path of the profile file that takes precedence for `model`.
pub open spec fn profile_path(model: Seq<char>) -> Seq<char> {
    "profiles/"@ + model + ".profile"@
}

/// `profiles/<model>.profile`, where a model's own profile file is looked for.
pub fn profile_file(model: &str) -> (r: String)
    ensures
        r@ == profile_path(model@),
{
    let mut r = String::from_str("profiles/");
    r.append(model);
    r.append(".profile");
    r
}

/// Splitting `a + "\n" + b` at newlines gives the pieces of `a`, then those of `b`.
proof fn lemma_pieces_concat(a: Seq<char>, b: Seq<char>, cur: Seq<char>)
    ensures
        pieces_from(a + seq!['\n'] + b, cur) == pieces_from(a, cur) + pieces_from(b, seq![]),
    decreases a.len(),
{
    let s = a + seq!['\n'] + b;
    if a.len() == 0 {
        assert(s[0] == '\n');
        assert(s.drop_first() =~= b);
        assert(pieces_from(a, cur) == seq![cur]);
    } else {
        assert(s[0] == a[0]);
        assert(s.drop_first() =~= a.drop_first() + seq!['\n'] + b);
        if a[0] == '\n' {
            lemma_pieces_concat(a.drop_first(), b, seq![]);
            assert(pieces_from(s, cur) =~= pieces_from(a, cur) + pieces_from(b, seq![]));
        } else {
            lemma_pieces_concat(a.drop_first(), b, cur.push(a[0]));
        }
    }
}

/// A text without newlines is a single piece.
proof fn lemma_pieces_single(s: Seq<char>, cur: Seq<char>)
    requires
        forall|i: int| 0 <= i < s.len() ==> s[i] != '\n',
    ensures
        pieces_from(s, cur) == seq![cur + s],
    decreases s.len(),
{
    if s.len() == 0 {
        assert(cur + s =~= cur);
    } else {
        assert forall|i: int| 0 <= i < s.drop_first().len() implies s.drop_first()[i] != '\n' by {
            assert(s.drop_first()[i] == s[i + 1]);
        }
        lemma_pieces_single(s.drop_first(), cur.push(s[0]));
        assert(cur.push(s[0]) + s.drop_first() =~= cur + s);
    }
}

/// The entries of two runs of lines are those of each run in turn.
proof fn lemma_entries_concat(xs: Seq<Seq<char>>, ys: Seq<Seq<char>>)
    ensures
        entries_of(xs + ys) == entries_of(xs) + entries_of(ys),
    decreases ys.len(),
{
    if ys.len() == 0 {
        assert(xs + ys =~= xs);
        assert(entries_of(xs) + entries_of(ys) =~= entries_of(xs));
    } else {
        assert((xs + ys).drop_last() =~= xs + ys.drop_last());
        assert((xs + ys).last() == ys.last());
        lemma_entries_concat(xs, ys.drop_last());
        match line_entry(ys.last()) {
            Some(e) => {
                assert(entries_of(xs + ys) =~= entries_of(xs) + entries_of(ys));
            },
            None => {},
        }
    }
}

/// The entries of `text` followed, on a line of its own, by `line`.
proof fn lemma_entries_append_line(text: Seq<char>, line: Seq<char>)
    requires
        forall|i: int| 0 <= i < line.len() ==> line[i] != '\n',
    ensures
        text_entries(text + seq!['\n'] + line) == text_entries(text) + entries_of(seq![line]),
        text_entries(line + seq!['\n'] + text) == entries_of(seq![line]) + text_entries(text),
{
    lemma_pieces_concat(text, line, seq![]);
    lemma_pieces_single(line, seq![]);
    assert(seq![] + line =~= line);
    lemma_entries_concat(newline_pieces(text), seq![line]);
    lemma_pieces_concat(line, text, seq![]);
    lemma_entries_concat(seq![line], newline_pieces(text));
}

/// One of the field names a profile has.
pub open spec fn is_field_name(n: Seq<char>) -> bool {
    ||| n == "model"@
    ||| n == "cpu_p_temp"@
    ||| n == "cpu_e_temp"@
    ||| n == "gpu_temp"@
    ||| n == "hotspot"@
    ||| n == "dram_temp"@
    ||| n == "dram_power"@
    ||| n == "ssd_temp"@
    ||| n == "battery_temp"@
    ||| n == "fans"@
    ||| n == "system_power"@
    ||| n == "cpu_clusters"@
    ||| n == "rails"@
    ||| n == "adapter_voltage"@
    ||| n == "adapter_current"@
    ||| n == "backlight_power"@
    ||| n == "backlight_current"@
    ||| n == "ane_temp"@
}

/// A line that sets no field of a profile: blank, a `#` comment, without
/// `:`, or naming a field a profile does not have.
pub open spec fn ignorable(line: Seq<char>) -> bool {
    match line_entry(line) {
        Some(e) => !is_field_name(e.0),
        None => true,
    }
}

/// The field a line sets, if any.
pub open spec fn line_field(line: Seq<char>) -> Option<Seq<char>> {
    match line_entry(line) {
        Some(e) => Some(e.0),
        None => None,
    }
}

/// The last entry for `name` in `x + y` is the last in `y`, else the last in `x`.
proof fn lemma_lookup_concat(x: Seq<EntryView>, y: Seq<EntryView>, name: Seq<char>)
    ensures
        lookup(x + y, name) == match lookup(y, name) {
            Some(v) => Some(v),
            None => lookup(x, name),
        },
    decreases y.len(),
{
    if y.len() == 0 {
        assert(x + y =~= x);
    } else {
        assert((x + y).drop_last() =~= x + y.drop_last());
        assert((x + y).last() == y.last());
        lemma_lookup_concat(x, y.drop_last(), name);
    }
}

/// The entries contributed by a single line.
proof fn lemma_entries_single(line: Seq<char>)
    ensures
        entries_of(seq![line]) == match line_entry(line) {
            Some(e) => seq![e],
            None => Seq::<EntryView>::empty(),
        },
{
    let none: Seq<Seq<char>> = seq![];
    assert(entries_of(none) =~= seq![]);
    assert(seq![line].drop_last() =~= none);
    assert(seq![line].last() == line);
    match line_entry(line) {
        Some(e) => {
            assert(entries_of(seq![line]) =~= seq![e]);
        },
        None => {},
    }
}

/// The entries of `a`, a line, then `b`, each on lines of their own.
proof fn lemma_entries_around(a: Seq<char>, line: Seq<char>, b: Seq<char>)
    requires
        forall|i: int| 0 <= i < line.len() ==> line[i] != '\n',
    ensures
        text_entries(a + seq!['\n'] + line + seq!['\n'] + b) == text_entries(a) + entries_of(
            seq![line],
        ) + text_entries(b),
        text_entries(a + seq!['\n'] + b) == text_entries(a) + text_entries(b),
{
    let rest = line + seq!['\n'] + b;
    assert(a + seq!['\n'] + line + seq!['\n'] + b =~= a + seq!['\n'] + rest);
    lemma_pieces_concat(a, rest, seq![]);
    lemma_pieces_concat(line, b, seq![]);
    lemma_pieces_single(line, seq![]);
    assert(seq![] + line =~= line);
    lemma_entries_concat(newline_pieces(a), newline_pieces(rest));
    lemma_entries_concat(seq![line], newline_pieces(b));
    assert(text_entries(a) + (entries_of(seq![line]) + text_entries(b)) =~= text_entries(a)
        + entries_of(seq![line]) + text_entries(b));
    lemma_pieces_concat(a, b, seq![]);
    lemma_entries_concat(newline_pieces(a), newline_pieces(b));
}

/// Two texts whose entries give every field name the same last entry
/// describe the same profile.
proof fn lemma_parsed_eq(t1: Seq<char>, t2: Seq<char>, skip: Option<Seq<char>>)
    requires
        match skip {
            Some(k) => !is_field_name(k),
            None => true,
        },
        forall|n: Seq<char>|
            skip != Some(n) ==> #[trigger] lookup(text_entries(t1), n) == lookup(
                text_entries(t2),
                n,
            ),
    ensures
        parsed(t1) == parsed(t2),
{
}

/// Adding an entry for a name other than `n` leaves the last entry for `n`.
proof fn lemma_lookup_skip(x: Seq<EntryView>, y: Seq<EntryView>, extra: Seq<EntryView>, n: Seq<char>)
    requires
        forall|t: int| 0 <= t < extra.len() ==> #[trigger] extra[t].0 != n,
    ensures
        lookup(x + extra + y, n) == lookup(x + y, n),
{
    lemma_lookup_concat(x + extra, y, n);
    lemma_lookup_concat(x, y, n);
    lemma_lookup_concat(x, extra, n);
    lemma_lookup_none(extra, n);
}

/// With no entry for `n`, there is no last entry for it.
proof fn lemma_lookup_none(es: Seq<EntryView>, n: Seq<char>)
    requires
        forall|t: int| 0 <= t < es.len() ==> #[trigger] es[t].0 != n,
    ensures
        lookup(es, n) is None,
    decreases es.len(),
{
    if es.len() > 0 {
        assert(es.last() == es[es.len() - 1]);
        assert forall|t: int| 0 <= t < es.drop_last().len() implies #[trigger] es.drop_last()[t].0
            != n by {
            assert(es.drop_last()[t] == es[t]);
        }
        lemma_lookup_none(es.drop_last(), n);
    }
}

/// A line that sets no field of a profile changes nothing, wherever it is
/// added: at the end, at the start, or between any two lines.
pub proof fn law_ignored_line(text: Seq<char>, line: Seq<char>, a: Seq<char>, b: Seq<char>)
    requires
        forall|i: int| 0 <= i < line.len() ==> line[i] != '\n',
        ignorable(line),
    ensures
        parsed(text + seq!['\n'] + line) == parsed(text),
        parsed(line + seq!['\n'] + text) == parsed(text),
        parsed(a + seq!['\n'] + line + seq!['\n'] + b) == parsed(a + seq!['\n'] + b),
{
    lemma_entries_single(line);
    lemma_entries_append_line(text, line);
    lemma_entries_around(a, line, b);
    let extra = entries_of(seq![line]);
    let skip = line_field(line);
    let none: Seq<EntryView> = seq![];
    assert forall|n: Seq<char>| skip != Some(n) implies #[trigger] lookup(
        text_entries(text + seq!['\n'] + line),
        n,
    ) == lookup(text_entries(text), n) by {
        assert forall|t: int| 0 <= t < extra.len() implies #[trigger] extra[t].0 != n by {}
        lemma_lookup_skip(text_entries(text), none, extra, n);
        assert(text_entries(text) + extra + none =~= text_entries(text) + extra);
        assert(text_entries(text) + none =~= text_entries(text));
    }
    lemma_parsed_eq(text + seq!['\n'] + line, text, skip);
    assert forall|n: Seq<char>| skip != Some(n) implies #[trigger] lookup(
        text_entries(line + seq!['\n'] + text),
        n,
    ) == lookup(text_entries(text), n) by {
        assert forall|t: int| 0 <= t < extra.len() implies #[trigger] extra[t].0 != n by {}
        lemma_lookup_skip(none, text_entries(text), extra, n);
        assert(none + extra + text_entries(text) =~= extra + text_entries(text));
        assert(none + text_entries(text) =~= text_entries(text));
    }
    lemma_parsed_eq(line + seq!['\n'] + text, text, skip);
    assert forall|n: Seq<char>| skip != Some(n) implies #[trigger] lookup(
        text_entries(a + seq!['\n'] + line + seq!['\n'] + b),
        n,
    ) == lookup(text_entries(a + seq!['\n'] + b), n) by {
        assert forall|t: int| 0 <= t < extra.len() implies #[trigger] extra[t].0 != n by {}
        lemma_lookup_skip(text_entries(a), text_entries(b), extra, n);
    }
    lemma_parsed_eq(a + seq!['\n'] + line + seq!['\n'] + b, a + seq!['\n'] + b, skip);
}

/// Two adjacent lines that do not set the same field may change places:
/// lines setting different fields commute.
pub proof fn law_lines_commute(a: Seq<char>, l1: Seq<char>, l2: Seq<char>, b: Seq<char>)
    requires
        forall|i: int| 0 <= i < l1.len() ==> l1[i] != '\n',
        forall|i: int| 0 <= i < l2.len() ==> l2[i] != '\n',
        line_field(l1) is None || line_field(l2) is None || line_field(l1) != line_field(l2),
    ensures
        parsed(a + seq!['\n'] + l1 + seq!['\n'] + l2 + seq!['\n'] + b) == parsed(
            a + seq!['\n'] + l2 + seq!['\n'] + l1 + seq!['\n'] + b,
        ),
{
    let b1 = l2 + seq!['\n'] + b;
    let b2 = l1 + seq!['\n'] + b;
    assert(a + seq!['\n'] + l1 + seq!['\n'] + l2 + seq!['\n'] + b =~= a + seq!['\n'] + l1
        + seq!['\n'] + b1);
    assert(a + seq!['\n'] + l2 + seq!['\n'] + l1 + seq!['\n'] + b =~= a + seq!['\n'] + l2
        + seq!['\n'] + b2);
    lemma_entries_around(a, l1, b1);
    lemma_entries_around(a, l2, b2);
    lemma_pieces_concat(l2, b, seq![]);
    lemma_pieces_single(l2, seq![]);
    lemma_pieces_single(l1, seq![]);
    lemma_pieces_concat(l1, b, seq![]);
    assert(seq![] + l2 =~= l2);
    assert(seq![] + l1 =~= l1);
    lemma_entries_concat(seq![l2], newline_pieces(b));
    lemma_entries_concat(seq![l1], newline_pieces(b));
    lemma_entries_single(l1);
    lemma_entries_single(l2);
    let ta = text_entries(a);
    let tb = text_entries(b);
    let e1 = entries_of(seq![l1]);
    let e2 = entries_of(seq![l2]);
    let x = text_entries(a + seq!['\n'] + l1 + seq!['\n'] + l2 + seq!['\n'] + b);
    let y = text_entries(a + seq!['\n'] + l2 + seq!['\n'] + l1 + seq!['\n'] + b);
    assert(x =~= ta + e1 + e2 + tb);
    assert(y =~= ta + e2 + e1 + tb);
    assert forall|n: Seq<char>| #[trigger] lookup(x, n) == lookup(y, n) by {
        lemma_lookup_concat(ta + e1 + e2, tb, n);
        lemma_lookup_concat(ta + e2 + e1, tb, n);
        lemma_lookup_concat(ta + e1, e2, n);
        lemma_lookup_concat(ta, e1, n);
        lemma_lookup_concat(ta + e2, e1, n);
        lemma_lookup_concat(ta, e2, n);
        let none: Seq<EntryView> = seq![];
        match line_entry(l1) {
            Some(v) => {
                assert(e1[0] == v);
                lemma_lookup_concat(none, e1, n);
                assert(none + e1 =~= e1);
                assert(e1.drop_last() =~= none);
            },
            None => {},
        }
        match line_entry(l2) {
            Some(v) => {
                assert(e2[0] == v);
                assert(e2.drop_last() =~= none);
            },
            None => {},
        }
    }
    lemma_parsed_eq(
        a + seq!['\n'] + l1 + seq!['\n'] + l2 + seq!['\n'] + b,
        a + seq!['\n'] + l2 + seq!['\n'] + l1 + seq!['\n'] + b,
        None,
    );
}

/// A `field: keys` line sets that field to its keys, whatever came before,
/// and leaves every other field as it was.
pub proof fn law_later_line_wins(
    text: Seq<char>,
    line: Seq<char>,
    field: Seq<char>,
    keys: Seq<Seq<char>>,
    name: Seq<char>,
)
    requires
        forall|i: int| 0 <= i < line.len() ==> line[i] != '\n',
        line_entry(line) == Some((field, keys)),
    ensures
        field_list(text + seq!['\n'] + line, field) == keys,
        name != field ==> field_list(text + seq!['\n'] + line, name) == field_list(text, name),
{
    lemma_entries_append_line(text, line);
    let e = (field, keys);
    assert(entries_of(seq![line]) =~= seq![e]) by {
        let none: Seq<Seq<char>> = seq![];
        assert(entries_of(none) =~= seq![]);
        assert(seq![line].drop_last() =~= none);
        assert(seq![line].last() == line);
    }
    let es = text_entries(text + seq!['\n'] + line);
    assert(es =~= text_entries(text).push(e));
    assert(es.drop_last() =~= text_entries(text));
}

/// Whether a line sets field `n`.
pub open spec fn sets_field(n: Seq<char>) -> spec_fn(Seq<char>) -> bool {
    |l: Seq<char>| line_field(l) == Some(n)
}

/// The lines of a text that set field `n`, in order.
pub open spec fn lines_for(text: Seq<char>, n: Seq<char>) -> Seq<Seq<char>> {
    newline_pieces(text).filter(sets_field(n))
}

/// The keys of the last of `lines`, if there is one.
pub open spec fn last_keys(lines: Seq<Seq<char>>) -> Option<Seq<Seq<char>>> {
    if lines.len() == 0 {
        None
    } else {
        match line_entry(lines.last()) {
            Some(e) => Some(e.1),
            None => None,
        }
    }
}

/// The last entry for `n` comes from the last line that sets `n`.
proof fn lemma_lookup_lines(ls: Seq<Seq<char>>, n: Seq<char>)
    ensures
        lookup(entries_of(ls), n) == last_keys(ls.filter(sets_field(n))),
    decreases ls.len(),
{
    if ls.len() == 0 {
        assert(ls.filter(sets_field(n)) =~= ls) by {
            reveal(Seq::filter);
        }
    } else {
        let init = ls.drop_last();
        let l = ls.last();
        lemma_lookup_lines(init, n);
        init.lemma_filter_push(l, sets_field(n));
        assert(init.push(l) =~= ls);
        let es = entries_of(init);
        match line_entry(l) {
            Some(e) => {
                assert(entries_of(ls) == es.push(e));
                assert(es.push(e).drop_last() =~= es);
            },
            None => {},
        }
    }
}

/// Two texts with the same lines per field describe the same profile.
proof fn lemma_parsed_eq_fields(t1: Seq<char>, t2: Seq<char>)
    requires
        forall|n: Seq<char>|
            is_field_name(n) ==> #[trigger] lookup(text_entries(t1), n) == lookup(
                text_entries(t2),
                n,
            ),
    ensures
        parsed(t1) == parsed(t2),
{
}

/// A profile depends only on, for each field, the lines that set it and
/// their order: any reordering of lines that keeps, for each field name,
/// the relative order of the lines setting it, and any change to lines that
/// set no field, gives the same profile.
pub proof fn law_parse_depends_on_field_lines(t1: Seq<char>, t2: Seq<char>)
    requires
        forall|n: Seq<char>|
            is_field_name(n) ==> #[trigger] lines_for(t1, n) == lines_for(t2, n),
    ensures
        parsed(t1) == parsed(t2),
{
    assert forall|n: Seq<char>| is_field_name(n) implies #[trigger] lookup(
        text_entries(t1),
        n,
    ) == lookup(text_entries(t2), n) by {
        lemma_lookup_lines(newline_pieces(t1), n);
        lemma_lookup_lines(newline_pieces(t2), n);
        assert(lines_for(t1, n) == lines_for(t2, n));
    }
    lemma_parsed_eq_fields(t1, t2);
}

/// A profile file found for a machine always loads, whatever the model, and
/// takes precedence over any built-in profile.
pub proof fn law_profile_file_always_loads(model: Seq<char>, text: Seq<char>)
    ensures
        chosen_profile(model, Some(text)) == Some(parsed(text)),
{
}

/// Without a profile file, a model loads exactly when a profile for it ships,
/// and then loads that profile's text.
pub proof fn law_without_file_only_shipped_models_load(model: Seq<char>)
    ensures
        chosen_profile(model, None) is Some <==> bundled_names().contains(model),
        bundled_names().contains(model) ==> chosen_profile(model, None) == Some(
            parsed(MAC15_11_PROFILE@),
        ),
{
    if bundled_names().contains(model) {
        let t = choose|t: int| 0 <= t < bundled_names().len() && bundled_names()[t] == model;
        assert(model == "Mac15,11"@);
    }
    if model == "Mac15,11"@ {
        assert(bundled_names()[0] == model);
    }
}

/// A `name: keys` line yields its name and every whitespace-separated word
/// after the colon, however many there are.
pub proof fn law_field_line_keeps_every_key(name: Seq<char>, v: Seq<char>)
    requires
        name.len() > 0,
        name[0] != '#',
        forall|i: int| 0 <= i < name.len() ==> !is_ws(#[trigger] name[i]) && name[i] != ':',
    ensures
        line_entry(name + seq![':'] + v) == Some((name, words(v))),
{
    let x = name + seq![':'];
    let line = x + v;
    assert(line =~= name + seq![':'] + v);
    assert(!is_ws(line[0])) by {
        assert(line[0] == name[0]);
    }
    assert(trim_start(line) == line);
    assert(x.last() == ':');
    lemma_trim_end_after(x, v);
    let t = trim(line);
    assert(t == x + trim_end(v));
    assert(t[0] == name[0]);
    assert forall|j: int| 0 <= j < name.len() implies t[j] != ':' by {
        assert(t[j] == name[j]);
    }
    assert(t[name.len() as int] == ':');
    lemma_find_char_at(t, ':', name.len() as int);
    assert(t.take(name.len() as int) =~= name);
    assert(t.skip(name.len() as int + 1) =~= trim_end(v));
    lemma_trim_no_ws(name);
    lemma_words_trim_end(v);
}

/// A `name: keys` line, given last, sets its field to every key on it.
pub proof fn law_field_line_sets_all_keys(text: Seq<char>, name: Seq<char>, v: Seq<char>)
    requires
        name.len() > 0,
        name[0] != '#',
        forall|i: int| 0 <= i < name.len() ==> !is_ws(#[trigger] name[i]) && name[i] != ':',
        forall|i: int| 0 <= i < v.len() ==> v[i] != '\n',
    ensures
        field_list(text + seq!['\n'] + (name + seq![':'] + v), name) == words(v),
{
    law_field_line_keeps_every_key(name, v);
    let line = name + seq![':'] + v;
    assert forall|i: int| 0 <= i < line.len() implies line[i] != '\n' by {
        if i < name.len() {
            assert(line[i] == name[i]);
            assert(!is_ws(name[i]));
        } else if i > name.len() {
            assert(line[i] == v[i - name.len() - 1]);
        }
    }
    law_later_line_wins(text, line, name, words(v), name);
}

/// The first of `keys`, or empty when there is none.
pub open spec fn first_or_empty(keys: Seq<Seq<char>>) -> Seq<char> {
    if keys.len() > 0 {
        keys[0]
    } else {
        seq![]
    }
}

/// Each field of a profile comes from the lines naming that field: a last
/// `name: keys` line sets a list field to every key on it, and a single-key
/// field to its first key.
pub proof fn law_profile_fields_from_own_lines(text: Seq<char>, v: Seq<char>)
    requires
        forall|i: int| 0 <= i < v.len() ==> v[i] != '\n',
    ensures
        parsed(text + seq!['\n'] + ("cpu_p_temp"@ + seq![':'] + v)).cpu_p_temp == words(v),
        parsed(text + seq!['\n'] + ("cpu_e_temp"@ + seq![':'] + v)).cpu_e_temp == words(v),
        parsed(text + seq!['\n'] + ("gpu_temp"@ + seq![':'] + v)).gpu_temp == words(v),
        parsed(text + seq!['\n'] + ("hotspot"@ + seq![':'] + v)).hotspot == words(v),
        parsed(text + seq!['\n'] + ("dram_temp"@ + seq![':'] + v)).dram_temp == words(v),
        parsed(text + seq!['\n'] + ("ssd_temp"@ + seq![':'] + v)).ssd_temp == words(v),
        parsed(text + seq!['\n'] + ("battery_temp"@ + seq![':'] + v)).battery_temp == words(v),
        parsed(text + seq!['\n'] + ("fans"@ + seq![':'] + v)).fans == words(v),
        parsed(text + seq!['\n'] + ("cpu_clusters"@ + seq![':'] + v)).cpu_clusters == words(v),
        parsed(text + seq!['\n'] + ("rails"@ + seq![':'] + v)).rails == words(v),
        parsed(text + seq!['\n'] + ("adapter_voltage"@ + seq![':'] + v)).adapter_voltage == words(v),
        parsed(text + seq!['\n'] + ("adapter_current"@ + seq![':'] + v)).adapter_current == words(v),
        parsed(text + seq!['\n'] + ("ane_temp"@ + seq![':'] + v)).ane_temp == words(v),
        parsed(text + seq!['\n'] + ("model"@ + seq![':'] + v)).model == first_or_empty(words(v)),
        parsed(text + seq!['\n'] + ("dram_power"@ + seq![':'] + v)).dram_power == first_or_empty(words(v)),
        parsed(text + seq!['\n'] + ("system_power"@ + seq![':'] + v)).system_power == first_or_empty(words(v)),
        parsed(text + seq!['\n'] + ("backlight_power"@ + seq![':'] + v)).backlight_power == first_or_empty(words(v)),
        parsed(text + seq!['\n'] + ("backlight_current"@ + seq![':'] + v)).backlight_current == first_or_empty(words(v)),
{
    reveal_strlit("cpu_p_temp");
    law_field_line_sets_all_keys(text, "cpu_p_temp"@, v);
    reveal_strlit("cpu_e_temp");
    law_field_line_sets_all_keys(text, "cpu_e_temp"@, v);
    reveal_strlit("gpu_temp");
    law_field_line_sets_all_keys(text, "gpu_temp"@, v);
    reveal_strlit("hotspot");
    law_field_line_sets_all_keys(text, "hotspot"@, v);
    reveal_strlit("dram_temp");
    law_field_line_sets_all_keys(text, "dram_temp"@, v);
    reveal_strlit("ssd_temp");
    law_field_line_sets_all_keys(text, "ssd_temp"@, v);
    reveal_strlit("battery_temp");
    law_field_line_sets_all_keys(text, "battery_temp"@, v);
    reveal_strlit("fans");
    law_field_line_sets_all_keys(text, "fans"@, v);
    reveal_strlit("cpu_clusters");
    law_field_line_sets_all_keys(text, "cpu_clusters"@, v);
    reveal_strlit("rails");
    law_field_line_sets_all_keys(text, "rails"@, v);
    reveal_strlit("adapter_voltage");
    law_field_line_sets_all_keys(text, "adapter_voltage"@, v);
    reveal_strlit("adapter_current");
    law_field_line_sets_all_keys(text, "adapter_current"@, v);
    reveal_strlit("ane_temp");
    law_field_line_sets_all_keys(text, "ane_temp"@, v);
    reveal_strlit("model");
    law_field_line_sets_all_keys(text, "model"@, v);
    reveal_strlit("dram_power");
    law_field_line_sets_all_keys(text, "dram_power"@, v);
    reveal_strlit("system_power");
    law_field_line_sets_all_keys(text, "system_power"@, v);
    reveal_strlit("backlight_power");
    law_field_line_sets_all_keys(text, "backlight_power"@, v);
    reveal_strlit("backlight_current");
    law_field_line_sets_all_keys(text, "backlight_current"@, v);
}

} // verus!
