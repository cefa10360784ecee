//! Decisions of the command-line views and the HTTP front end that do not
//! depend on sensor values: grouping and ordering of a key scan, the key-type
//! JSON object, gauge glyphs, and request routing.
use vstd::prelude::*;

use crate::text::{chars_of, is_ws, law_words_single, law_words_split, push_char, str_eq, words, words_in};

verus! {

/// Where `scan` lists a key.
#[derive(PartialEq, Eq, Structural, Clone, Copy, Debug)]
pub enum ScanGroup {
    /// A float key starting with `T`: a temperature, when its reading is plausible.
    Temperature,
    /// A float key starting with `P`: a power reading.
    Power,
    /// Any other key.
    Other,
}

/// The group of a key of the given decode type.
pub open spec fn scan_group_of(key: Seq<char>, typ: Seq<char>) -> ScanGroup {
    if typ == "flt"@ && key.len() > 0 && key[0] == 'T' {
        ScanGroup::Temperature
    } else if typ == "flt"@ && key.len() > 0 && key[0] == 'P' {
        ScanGroup::Power
    } else {
        ScanGroup::Other
    }
}

/// The group `scan` lists a key of decode type `typ` in.
pub fn scan_group(key: &str, typ: &str) -> (g: ScanGroup)
    ensures
        g == scan_group_of(key@, typ@),
{
    let cs = chars_of(key);
    if !str_eq(typ, "flt") || cs.len() == 0 {
        ScanGroup::Other
    } else if cs[0] == 'T' {
        ScanGroup::Temperature
    } else if cs[0] == 'P' {
        ScanGroup::Power
    } else {
        ScanGroup::Other
    }
}

/// The decode type of the last schema entry for `key`, if any.
pub open spec fn type_of(schema: Seq<(Seq<char>, Seq<char>)>, key: Seq<char>) -> Option<Seq<char>>
    decreases schema.len(),
{
    if schema.len() == 0 {
        None
    } else if schema.last().0 == key {
        Some(schema.last().1)
    } else {
        type_of(schema.drop_last(), key)
    }
}

/// The decode type the schema gives `key`; the last entry for it counts.
pub fn schema_type(schema: &Vec<(String, String)>, key: &String) -> (r: Option<String>)
    ensures
        r.deep_view() == type_of(schema.deep_view(), key@),
{
    let ghost sv = schema.deep_view();
    let mut i = schema.len();
    assert(sv.take(i as int) =~= sv);
    while i > 0
        invariant
            sv == schema.deep_view(),
            i <= sv.len(),
            type_of(sv, key@) == type_of(sv.take(i as int), key@),
        decreases i,
    {
        let ghost pre = sv.take(i as int);
        assert(pre.last() == sv[i - 1]);
        assert(pre.drop_last() =~= sv.take(i - 1));
        if schema[i - 1].0 == *key {
            return Some(schema[i - 1].1.clone());
        }
        i = i - 1;
    }
    None
}

/// Lexicographic order of keys by character, the order of `String`'s `Ord`.
pub open spec fn key_le(a: Seq<char>, b: Seq<char>) -> bool
    decreases a.len(),
{
    if a.len() == 0 {
        true
    } else if b.len() == 0 {
        false
    } else if a[0] < b[0] {
        true
    } else if b[0] < a[0] {
        false
    } else {
        key_le(a.drop_first(), b.drop_first())
    }
}

/// Any two keys are ordered one way or the other.
pub proof fn lemma_key_le_total(a: Seq<char>, b: Seq<char>)
    ensures
        key_le(a, b) || key_le(b, a),
    decreases a.len(),
{
    if a.len() > 0 && b.len() > 0 && a[0] == b[0] {
        lemma_key_le_total(a.drop_first(), b.drop_first());
    }
}

/// The order of keys is transitive.
pub proof fn lemma_key_le_transitive(a: Seq<char>, b: Seq<char>, c: Seq<char>)
    requires
        key_le(a, b),
        key_le(b, c),
    ensures
        key_le(a, c),
    decreases a.len(),
{
    if a.len() > 0 && b.len() > 0 && c.len() > 0 && a[0] == b[0] && b[0] == c[0] {
        lemma_key_le_transitive(a.drop_first(), b.drop_first(), c.drop_first());
    }
}

/// Whether `a` sorts no later than `b`.
pub fn key_le_exec(a: &String, b: &String) -> (r: bool)
    ensures
        r == key_le(a@, b@),
{
    let x = chars_of(a.as_str());
    let y = chars_of(b.as_str());
    let mut i: usize = 0;
    assert(x@.skip(0) =~= x@);
    assert(y@.skip(0) =~= y@);
    while i < x.len() && i < y.len() && x[i] == y[i]
        invariant
            x@ == a@,
            y@ == b@,
            i <= x@.len(),
            i <= y@.len(),
            key_le(a@, b@) == key_le(x@.skip(i as int), y@.skip(i as int)),
        decreases x@.len() - i,
    {
        assert(x@.skip(i as int).drop_first() =~= x@.skip(i + 1));
        assert(y@.skip(i as int).drop_first() =~= y@.skip(i + 1));
        i = i + 1;
    }
    if i == x.len() {
        true
    } else if i == y.len() {
        false
    } else {
        x[i] < y[i]
    }
}

/// Entries are in key order.
pub open spec fn sorted_by_key(s: Seq<(Seq<char>, usize)>) -> bool {
    forall|i: int, j: int| 0 <= i < j < s.len() ==> key_le(s[i].0, s[j].0)
}

/// The entries whose key is `k`, in order.
pub open spec fn with_key(s: Seq<(Seq<char>, usize)>, k: Seq<char>) -> Seq<(Seq<char>, usize)> {
    s.filter(has_key(k))
}

/// The test that an entry's key is `k`.
pub open spec fn has_key(k: Seq<char>) -> spec_fn((Seq<char>, usize)) -> bool {
    |e: (Seq<char>, usize)| e.0 == k
}

/// Inserting `x` where every later entry has another key appends `x` to the
/// entries of its key and leaves the entries of every other key alone.
proof fn lemma_with_key_insert(s: Seq<(Seq<char>, usize)>, pos: int, x: (Seq<char>, usize), k: Seq<char>)
    requires
        0 <= pos <= s.len(),
        forall|t: int| pos <= t < s.len() ==> #[trigger] s[t].0 != x.0,
    ensures
        with_key(s.insert(pos, x), k) == if k == x.0 {
            with_key(s, k).push(x)
        } else {
            with_key(s, k)
        },
{
    let f = has_key(k);
    let a = s.take(pos);
    let b = s.skip(pos);
    assert(s.insert(pos, x) =~= a + seq![x] + b);
    assert(s =~= a + b);
    Seq::filter_distributes_over_add(a + seq![x], b, f);
    Seq::filter_distributes_over_add(a, seq![x], f);
    Seq::filter_distributes_over_add(a, b, f);
    let none: Seq<(Seq<char>, usize)> = seq![];
    assert(seq![x] =~= none.push(x));
    none.lemma_filter_push(x, f);
    assert(none.filter(f) =~= none) by {
        reveal(Seq::filter);
    }
    if k == x.0 {
        assert(b.all(|e: (Seq<char>, usize)| !f(e))) by {
            assert forall|t: int| 0 <= t < b.len() implies !f(b[t]) by {
                assert(b[t] == s[pos + t]);
            }
        }
        b.lemma_all_neg_filter_empty(f);
        assert(b.filter(f) =~= none);
        assert(with_key(s.insert(pos, x), k) =~= with_key(s, k).push(x));
    } else {
        assert(with_key(s.insert(pos, x), k) =~= with_key(s, k));
    }
}

/// `entries` ordered by key; entries of equal keys keep their order.
pub fn sort_by_key(entries: Vec<(String, usize)>) -> (r: Vec<(String, usize)>)
    ensures
        sorted_by_key(r.deep_view()),
        r.deep_view().to_multiset() == entries.deep_view().to_multiset(),
        forall|k: Seq<char>| #[trigger] with_key(r.deep_view(), k) == with_key(
            entries.deep_view(),
            k,
        ),
{
    let ghost input = entries.deep_view();
    let mut r: Vec<(String, usize)> = Vec::new();
    let mut i: usize = 0;
    assert(input.take(0) =~= seq![]);
    assert(r.deep_view() =~= seq![]);
    while i < entries.len()
        invariant
            input == entries.deep_view(),
            i <= input.len(),
            sorted_by_key(r.deep_view()),
            r.deep_view().to_multiset() == input.take(i as int).to_multiset(),
            forall|k: Seq<char>| #[trigger] with_key(r.deep_view(), k) == with_key(
                input.take(i as int),
                k,
            ),
        decreases input.len() - i,
    {
        let x = (entries[i].0.clone(), entries[i].1);
        let ghost xv = (x.0@, x.1);
        assert(xv == input[i as int]);
        let ghost rv = r.deep_view();
        let mut pos: usize = 0;
        while pos < r.len()
            invariant
                rv == r.deep_view(),
                xv.0 == x.0@,
                pos <= rv.len(),
                forall|t: int| 0 <= t < pos ==> key_le(#[trigger] rv[t].0, xv.0),
            ensures
                pos <= rv.len(),
                forall|t: int| 0 <= t < pos ==> key_le(#[trigger] rv[t].0, xv.0),
                pos < rv.len() ==> !key_le(rv[pos as int].0, xv.0),
            decreases rv.len() - pos,
        {
            assert(rv[pos as int].0 == r@[pos as int].0@);
            let le = key_le_exec(&r[pos].0, &x.0);
            if !le {
                break;
            }
            pos = pos + 1;
        }
        proof {
            if pos < rv.len() {
                lemma_key_le_total(rv[pos as int].0, xv.0);
            }
        }
        r.insert(pos, x);
        let ghost nv = r.deep_view();
        proof {
            assert(nv =~= rv.insert(pos as int, xv)) by {
                assert forall|t: int| 0 <= t < nv.len() implies nv[t] == rv.insert(
                    pos as int,
                    xv,
                )[t] by {}
            }
            assert forall|a: int, b: int| 0 <= a < b < nv.len() implies key_le(
                nv[a].0,
                nv[b].0,
            ) by {
                if a == pos && b > pos && b - 1 > pos {
                    lemma_key_le_transitive(xv.0, rv[pos as int].0, rv[b - 1].0);
                }
            }
            assert forall|t: int| pos <= t < rv.len() implies #[trigger] rv[t].0 != xv.0 by {
                if t > pos {
                    assert(key_le(rv[pos as int].0, rv[t].0));
                }
            }
            assert forall|k: Seq<char>| #[trigger] with_key(nv, k) == with_key(
                input.take(i + 1),
                k,
            ) by {
                lemma_with_key_insert(rv, pos as int, xv, k);
                input.take(i as int).lemma_filter_push(xv, has_key(k));
                assert(input.take(i + 1) =~= input.take(i as int).push(xv));
                assert(with_key(rv, k) == with_key(input.take(i as int), k));
            }
            assert(nv.remove(pos as int) =~= rv);
            nv.to_multiset_ensures();
            vstd::seq_lib::to_multiset_remove(nv, pos as int);
            assert(input.take(i + 1) =~= input.take(i as int).push(xv));
            vstd::seq_lib::to_multiset_build(input.take(i as int), xv);
            assert(nv.to_multiset() =~= input.take(i + 1).to_multiset());
        }
        i = i + 1;
    }
    assert(input.take(i as int) =~= input);
    r
}

/// The glyph of a filled gauge cell.
pub open spec fn full_cell() -> char {
    '\u{2588}'
}

/// The glyph of an empty gauge cell.
pub open spec fn empty_cell() -> char {
    '\u{2591}'
}

/// A gauge `width` cells wide whose first `filled` cells are full.
pub fn bar_glyphs(filled: usize, width: usize) -> (r: String)
    ensures
        r@ == Seq::new(width as nat, |i: int| if i < filled { full_cell() } else { empty_cell() }),
{
    let mut r = String::new();
    let mut i: usize = 0;
    while i < width
        invariant
            i <= width,
            r@ == Seq::new(i as nat, |k: int| if k < filled { full_cell() } else { empty_cell() }),
        decreases width - i,
    {
        if i < filled {
            push_char(&mut r, '\u{2588}');
        } else {
            push_char(&mut r, '\u{2591}');
        }
        i = i + 1;
        assert(r@ =~= Seq::new(i as nat, |k: int| if k < filled { full_cell() } else { empty_cell() }));
    }
    r
}

/// What an HTTP request asks for.
#[derive(PartialEq, Eq, Structural, Clone, Copy, Debug)]
pub enum Route {
    /// The live event stream of snapshots.
    Stream,
    /// The twin page.
    Page,
    /// Nothing: the request names no path.
    Nothing,
}

/// The route of a request: its second whitespace-separated word is the path.
pub open spec fn route_of(request: Seq<char>) -> Route {
    let w = words(request);
    if w.len() < 2 {
        Route::Nothing
    } else if w[1] == "/stream"@ {
        Route::Stream
    } else {
        Route::Page
    }
}

/// Routes an HTTP request by the path in its request line.
pub fn route(request: &str) -> (r: Route)
    ensures
        r == route_of(request@),
{
    let cs = chars_of(request);
    let w = words_in(&cs, 0, cs.len());
    assert(cs@.subrange(0, cs@.len() as int) =~= request@);
    if w.len() < 2 {
        Route::Nothing
    } else {
        assert(w.deep_view()[1] == w@[1]@);
        if str_eq(w[1].as_str(), "/stream") {
            Route::Stream
        } else {
            Route::Page
        }
    }
}

/// Only float keys are grouped, a temperature key starts with `T` and a
/// power key with `P`, and every float key starting with `T` or `P` is
/// grouped accordingly.
pub proof fn law_scan_groups(key: Seq<char>, typ: Seq<char>)
    ensures
        typ != "flt"@ ==> scan_group_of(key, typ) == ScanGroup::Other,
        key.len() == 0 ==> scan_group_of(key, typ) == ScanGroup::Other,
        scan_group_of(key, typ) == ScanGroup::Temperature ==> typ == "flt"@ && key[0] == 'T',
        scan_group_of(key, typ) == ScanGroup::Power ==> typ == "flt"@ && key[0] == 'P',
        typ == "flt"@ && key.len() > 0 && key[0] == 'T' ==> scan_group_of(key, typ)
            == ScanGroup::Temperature,
        typ == "flt"@ && key.len() > 0 && key[0] == 'P' ==> scan_group_of(key, typ)
            == ScanGroup::Power,
{
}

/// A request routes by its second word: after a first word and whitespace,
/// a path of `/stream` asks for the stream and any other path for the page,
/// whatever follows the path.
pub proof fn law_route_by_path(m: Seq<char>, c: char, path: Seq<char>, rest: Seq<char>)
    requires
        m.len() > 0,
        forall|i: int| 0 <= i < m.len() ==> !is_ws(#[trigger] m[i]),
        is_ws(c),
        path.len() > 0,
        forall|i: int| 0 <= i < path.len() ==> !is_ws(#[trigger] path[i]),
        rest.len() == 0 || is_ws(rest[0]),
    ensures
        route_of(m + seq![c] + path + rest) == if path == "/stream"@ {
            Route::Stream
        } else {
            Route::Page
        },
{
    law_words_single(m);
    law_words_single(path);
    assert(m + seq![c] + path + rest =~= m + seq![c] + (path + rest));
    law_words_split(m, c, path + rest);
    if rest.len() == 0 {
        assert(path + rest =~= path);
    } else {
        let r2 = rest.drop_first();
        assert(path + rest =~= path + seq![rest[0]] + r2);
        law_words_split(path, rest[0], r2);
    }
    let w = words(m + seq![c] + path + rest);
    assert(w[1] == path);
}

/// A request of a single word names no path and is answered with nothing.
pub proof fn law_route_single_word(m: Seq<char>)
    requires
        m.len() > 0,
        forall|i: int| 0 <= i < m.len() ==> !is_ws(#[trigger] m[i]),
    ensures
        route_of(m) == Route::Nothing,
{
    law_words_single(m);
}

/// The last schema entry for a key gives its type: an entry added last
/// decides its key's type and leaves every other key's type alone, and an
/// empty schema gives no type.
pub proof fn law_schema_type_last_wins(
    schema: Seq<(Seq<char>, Seq<char>)>,
    key: Seq<char>,
    typ: Seq<char>,
    other: Seq<char>,
)
    ensures
        type_of(schema.push((key, typ)), key) == Some(typ),
        other != key ==> type_of(schema.push((key, typ)), other) == type_of(schema, other),
        type_of(Seq::<(Seq<char>, Seq<char>)>::empty(), key) is None,
{
    assert(schema.push((key, typ)).drop_last() =~= schema);
}

} // verus!
